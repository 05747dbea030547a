//! Typed, transactional lifecycle boundary for immutable skill revisions.
//!
//! All status mutations flow through this module. Policy modules decide *whether*
//! a transition is justified; this service revalidates the exact row, canonical
//! evidence snapshot, policy version and generation before applying it atomically:
//! an operation that is refused leaves every table as it was.

use crate::json;
use crate::order;
use crate::policy::RateFindings;
use crate::promotion;
use crate::promotion::StoredEvidence;
use crate::store::{
    ApprovalModel, ApprovalRow, EvidenceModel, EvidenceRow, PolicyModel, PolicyRow, RevisionModel,
    SkillStore, StoreError, StoreFault, StoreModel, TransitionModel, TransitionRow,
};
use crate::text;
use vstd::prelude::*;
use vstd::string::*;

verus! {

/// Seconds for which an issued approval authorization is valid.
pub const APPROVAL_AUTHORIZATION_LIFETIME_SECONDS: i64 = 300;

/// Version of the canonical lifecycle evidence encoding.
pub const EVIDENCE_SNAPSHOT_VERSION: u32 = 1;

/// Durable lifecycle values.
#[derive(Debug, Clone, Copy, PartialEq, Eq, Structural)]
pub enum LifecycleStatus {
    Pending,
    Verified,
    Canary,
    Active,
    Quarantined,
    Superseded,
    Retired,
    Rejected,
}

/// The status that a token names.
pub open spec fn status_of(token: Seq<char>) -> Option<LifecycleStatus> {
    if token == "pending"@ {
        Some(LifecycleStatus::Pending)
    } else if token == "verified"@ {
        Some(LifecycleStatus::Verified)
    } else if token == "canary"@ {
        Some(LifecycleStatus::Canary)
    } else if token == "active"@ {
        Some(LifecycleStatus::Active)
    } else if token == "quarantined"@ {
        Some(LifecycleStatus::Quarantined)
    } else if token == "superseded"@ {
        Some(LifecycleStatus::Superseded)
    } else if token == "retired"@ {
        Some(LifecycleStatus::Retired)
    } else if token == "rejected"@ {
        Some(LifecycleStatus::Rejected)
    } else {
        None
    }
}

impl LifecycleStatus {
    pub open spec fn token(self) -> Seq<char> {
        match self {
            LifecycleStatus::Pending => "pending"@,
            LifecycleStatus::Verified => "verified"@,
            LifecycleStatus::Canary => "canary"@,
            LifecycleStatus::Active => "active"@,
            LifecycleStatus::Quarantined => "quarantined"@,
            LifecycleStatus::Superseded => "superseded"@,
            LifecycleStatus::Retired => "retired"@,
            LifecycleStatus::Rejected => "rejected"@,
        }
    }

    /// Stable wire token.
    pub fn as_token(self) -> (r: &'static str)
        ensures
            r@ == self.token(),
    {
        match self {
            LifecycleStatus::Pending => "pending",
            LifecycleStatus::Verified => "verified",
            LifecycleStatus::Canary => "canary",
            LifecycleStatus::Active => "active",
            LifecycleStatus::Quarantined => "quarantined",
            LifecycleStatus::Superseded => "superseded",
            LifecycleStatus::Retired => "retired",
            LifecycleStatus::Rejected => "rejected",
        }
    }

    /// Parses a stable wire token.
    pub fn from_token(value: &str) -> (r: Option<LifecycleStatus>)
        ensures
            r == status_of(value@),
    {
        if text::same(value, "pending") {
            Some(LifecycleStatus::Pending)
        } else if text::same(value, "verified") {
            Some(LifecycleStatus::Verified)
        } else if text::same(value, "canary") {
            Some(LifecycleStatus::Canary)
        } else if text::same(value, "active") {
            Some(LifecycleStatus::Active)
        } else if text::same(value, "quarantined") {
            Some(LifecycleStatus::Quarantined)
        } else if text::same(value, "superseded") {
            Some(LifecycleStatus::Superseded)
        } else if text::same(value, "retired") {
            Some(LifecycleStatus::Retired)
        } else if text::same(value, "rejected") {
            Some(LifecycleStatus::Rejected)
        } else {
            None
        }
    }

    /// The statuses that a revision may move to from this one.
    pub open spec fn successors(self) -> Set<LifecycleStatus> {
        match self {
            LifecycleStatus::Pending => set![
                LifecycleStatus::Verified,
                LifecycleStatus::Rejected,
                LifecycleStatus::Quarantined,
            ],
            LifecycleStatus::Verified => set![
                LifecycleStatus::Canary,
                LifecycleStatus::Rejected,
                LifecycleStatus::Quarantined,
            ],
            LifecycleStatus::Canary => set![
                LifecycleStatus::Active,
                LifecycleStatus::Rejected,
                LifecycleStatus::Quarantined,
            ],
            LifecycleStatus::Active => set![
                LifecycleStatus::Superseded,
                LifecycleStatus::Quarantined,
                LifecycleStatus::Retired,
            ],
            LifecycleStatus::Superseded => set![
                LifecycleStatus::Active,
                LifecycleStatus::Quarantined,
                LifecycleStatus::Retired,
            ],
            LifecycleStatus::Quarantined => set![LifecycleStatus::Retired],
            LifecycleStatus::Retired => set![],
            LifecycleStatus::Rejected => set![],
        }
    }

    /// Structural transition graph. Higher-level authorization remains the
    /// responsibility of the service method.
    pub fn may_transition_to(self, next: LifecycleStatus) -> (r: bool)
        ensures
            r == self.successors().contains(next),
    {
        match self {
            LifecycleStatus::Pending => match next {
                LifecycleStatus::Verified
                | LifecycleStatus::Rejected
                | LifecycleStatus::Quarantined => true,
                _ => false,
            },
            LifecycleStatus::Verified => match next {
                LifecycleStatus::Canary
                | LifecycleStatus::Rejected
                | LifecycleStatus::Quarantined => true,
                _ => false,
            },
            LifecycleStatus::Canary => match next {
                LifecycleStatus::Active
                | LifecycleStatus::Rejected
                | LifecycleStatus::Quarantined => true,
                _ => false,
            },
            LifecycleStatus::Active => match next {
                LifecycleStatus::Superseded
                | LifecycleStatus::Quarantined
                | LifecycleStatus::Retired => true,
                _ => false,
            },
            LifecycleStatus::Superseded => match next {
                LifecycleStatus::Active
                | LifecycleStatus::Quarantined
                | LifecycleStatus::Retired => true,
                _ => false,
            },
            LifecycleStatus::Quarantined => match next {
                LifecycleStatus::Retired => true,
                _ => false,
            },
            LifecycleStatus::Retired => false,
            LifecycleStatus::Rejected => false,
        }
    }
}

/// Parsing the token of a status gives the status back.
pub proof fn law_status_tokens_round_trip(status: LifecycleStatus)
    ensures
        status_of(status.token()) == Some(status),
{
    reveal_strlit("pending");
    reveal_strlit("verified");
    reveal_strlit("canary");
    reveal_strlit("active");
    reveal_strlit("quarantined");
    reveal_strlit("superseded");
    reveal_strlit("retired");
    reveal_strlit("rejected");
    assert("pending"@.len() == 7);
    assert("verified"@.len() == 8);
    assert("canary"@.len() == 6);
    assert("active"@.len() == 6);
    assert("quarantined"@.len() == 11);
    assert("superseded"@.len() == 10);
    assert("retired"@.len() == 7);
    assert("rejected"@.len() == 8);
    assert("canary"@[0] == 'c');
    assert("active"@[0] == 'a');
    assert("pending"@[0] == 'p');
    assert("retired"@[0] == 'r');
    assert("verified"@[0] == 'v');
    assert("rejected"@[0] == 'r');
}

/// Rejected and retired are terminal, and no status leads to itself.
pub proof fn law_terminal_statuses(next: LifecycleStatus)
    ensures
        !LifecycleStatus::Rejected.successors().contains(next),
        !LifecycleStatus::Retired.successors().contains(next),
        !next.successors().contains(next),
{
}

/// One policy input: its name and the compact JSON text of its value.
#[derive(Debug, Clone, PartialEq, Eq)]
pub struct PolicyInput {
    pub name: String,
    pub json: String,
}

/// The contents of a [`PolicyInput`].
#[verifier::ext_equal]
pub struct PolicyInputModel {
    pub name: Seq<char>,
    pub json: Seq<char>,
}

impl View for PolicyInput {
    type V = PolicyInputModel;

    open spec fn view(&self) -> PolicyInputModel {
        PolicyInputModel { name: self.name@, json: self.json@ }
    }
}

/// Exact inputs bound to a lifecycle decision.
///
/// Sorted evidence ids and policy inputs in the order of their names make the
/// serialized bytes deterministic across processes and retries.
#[derive(Debug, Clone, PartialEq, Eq)]
pub struct EvidenceSnapshot {
    pub schema_version: u32,
    pub artifact_id: String,
    pub predecessor_id: Option<String>,
    pub policy_version: String,
    pub evidence_ids: Vec<String>,
    pub policy_inputs: Vec<PolicyInput>,
    pub artifact_row_version: i64,
    pub predecessor_row_version: Option<i64>,
    pub index_generation: i64,
}

/// The contents of an [`EvidenceSnapshot`].
#[verifier::ext_equal]
pub struct SnapshotModel {
    pub schema_version: u32,
    pub artifact_id: Seq<char>,
    pub predecessor_id: Option<Seq<char>>,
    pub policy_version: Seq<char>,
    pub evidence_ids: Seq<Seq<char>>,
    pub policy_inputs: Seq<PolicyInputModel>,
    pub artifact_row_version: i64,
    pub predecessor_row_version: Option<i64>,
    pub index_generation: i64,
}

pub open spec fn policy_input_views(s: Seq<PolicyInput>) -> Seq<PolicyInputModel> {
    s.map_values(|p: PolicyInput| p@)
}

/// One input goes before another: by its name.
pub open spec fn by_name() -> spec_fn(PolicyInputModel, PolicyInputModel) -> bool {
    |a: PolicyInputModel, b: PolicyInputModel| a.name != b.name && text::lex_le(a.name, b.name)
}

/// The inputs stand in the order of their names, and no name occurs twice.
pub open spec fn in_name_order(inputs: Seq<PolicyInputModel>) -> bool {
    forall|i: int, j: int|
        0 <= i < j < inputs.len() ==> by_name()(#[trigger] inputs[i], #[trigger] inputs[j])
}

/// The inputs with one more: at the place of its name, in place of the one that had it.
pub open spec fn with_input(inputs: Seq<PolicyInputModel>, input: PolicyInputModel) -> Seq<
    PolicyInputModel,
> {
    let at = order::place(inputs, input, by_name(), 0);
    if at < inputs.len() && inputs[at].name == input.name {
        inputs.update(at, input)
    } else {
        inputs.insert(at, input)
    }
}

/// Inputs by name, in the order of their names. Of two with the same name the later one
/// counts.
pub open spec fn named_inputs(inputs: Seq<PolicyInputModel>) -> Seq<PolicyInputModel>
    decreases inputs.len(),
{
    if inputs.len() == 0 {
        inputs
    } else {
        with_input(named_inputs(inputs.drop_last()), inputs.last())
    }
}

/// The value that a list of inputs gives a name: that of the last input with the name.
pub open spec fn named_value(inputs: Seq<PolicyInputModel>, name: Seq<char>) -> Option<Seq<char>>
    decreases inputs.len(),
{
    if inputs.len() == 0 {
        None
    } else if inputs.last().name == name {
        Some(inputs.last().json)
    } else {
        named_value(inputs.drop_last(), name)
    }
}

proof fn lemma_with_input(inputs: Seq<PolicyInputModel>, input: PolicyInputModel)
    requires
        in_name_order(inputs),
    ensures
        in_name_order(with_input(inputs, input)),
        forall|q: PolicyInputModel|
            #[trigger] with_input(inputs, input).contains(q) <==> q == input || (q.name
                != input.name && inputs.contains(q)),
{
    let before = by_name();
    let at = order::place(inputs, input, before, 0);
    order::lemma_place(inputs, input, before, 0);
    text::lemma_lex_total_ordering();
    let leq = text::lex_order();
    let after = with_input(inputs, input);
    let replaced = at < inputs.len() && inputs[at].name == input.name;
    // Behind the place every name is greater.
    assert forall|k: int| at <= k < inputs.len() && !(replaced && k == at) implies before(
        input,
        #[trigger] inputs[k],
    ) by {
        assert(leq(inputs[at].name, input.name) || leq(input.name, inputs[at].name));
        if k > at {
            assert(before(inputs[at], inputs[k]));
            assert(leq(inputs[at].name, inputs[k].name));
            assert(leq(input.name, inputs[at].name));
            assert(leq(input.name, inputs[k].name));
            if input.name == inputs[k].name {
                assert(leq(inputs[k].name, inputs[at].name));
            }
        }
    }
    assert forall|i: int, j: int| 0 <= i < j < after.len() implies before(
        #[trigger] after[i],
        #[trigger] after[j],
    ) by {
        if replaced {
            if i != at && j != at {
                assert(before(inputs[i], inputs[j]));
            }
        } else {
            let ii = if i < at { i } else { i - 1 };
            let jj = if j < at { j } else { j - 1 };
            if i != at {
                assert(after[i] == inputs[ii]);
            }
            if j != at {
                assert(after[j] == inputs[jj]);
            }
            if i != at && j != at {
                assert(before(inputs[ii], inputs[jj]));
            }
        }
    }
    assert forall|q: PolicyInputModel| #[trigger] after.contains(q) <==> q == input || (q.name
        != input.name && inputs.contains(q)) by {
        assert(after[at] == input);
        if after.contains(q) {
            let k = after.index_of(q);
            if k != at {
                let kk = if replaced || k < at { k } else { k - 1 };
                assert(after[k] == inputs[kk]);
                if kk < at {
                    assert(before(inputs[kk], input));
                } else {
                    assert(before(input, inputs[kk]));
                }
            }
        }
        if q.name != input.name && inputs.contains(q) {
            let k = inputs.index_of(q);
            let kk = if replaced || k < at { k } else { k + 1 };
            assert(after[kk] == q);
        }
    }
}

proof fn lemma_named_inputs(inputs: Seq<PolicyInputModel>)
    ensures
        in_name_order(named_inputs(inputs)),
        forall|q: PolicyInputModel|
            #[trigger] named_inputs(inputs).contains(q) <==> named_value(inputs, q.name) == Some(
                q.json,
            ),
    decreases inputs.len(),
{
    if inputs.len() > 0 {
        let init = inputs.drop_last();
        let last = inputs.last();
        lemma_named_inputs(init);
        lemma_with_input(named_inputs(init), last);
        assert forall|q: PolicyInputModel| #[trigger] named_inputs(inputs).contains(
            q,
        ) <==> named_value(inputs, q.name) == Some(q.json) by {
            if q.name == last.name && q.json == last.json {
                assert(q == last);
            }
            assert(named_inputs(init).contains(q) <==> named_value(init, q.name) == Some(q.json));
        }
    }
}

/// One input is in order as it is.
pub proof fn lemma_one_input(input: PolicyInputModel)
    ensures
        named_inputs(seq![input]) == seq![input],
        named_inputs(Seq::empty()) == Seq::<PolicyInputModel>::empty(),
{
    assert(seq![input].drop_last() =~= Seq::empty());
    assert(named_inputs(Seq::empty()) == Seq::<PolicyInputModel>::empty());
    assert(Seq::empty().insert(0, input) =~= seq![input]);
}

proof fn lemma_names_are_distinct(inputs: Seq<PolicyInputModel>, names: Seq<Seq<char>>)
    requires
        in_name_order(inputs),
        names == inputs.map_values(|p: PolicyInputModel| p.name),
    ensures
        names.no_duplicates(),
        vstd::relations::sorted_by(names, text::lex_order()),
{
    assert forall|i: int, j: int| 0 <= i < j < names.len() implies #[trigger] names[i]
        != #[trigger] names[j] by {
        assert(by_name()(inputs[i], inputs[j]));
    }
    assert forall|i: int, j: int| 0 <= i < j < names.len() implies text::lex_order()(
        #[trigger] names[i],
        #[trigger] names[j],
    ) by {
        assert(by_name()(inputs[i], inputs[j]));
    }
}

/// What a snapshot is encoded to depends only on which evidence it names and which value
/// each policy input has, not on the order in which either was gathered.
pub proof fn law_snapshots_are_reproducible(
    a_ids: Seq<Seq<char>>,
    b_ids: Seq<Seq<char>>,
    a: Seq<PolicyInputModel>,
    b: Seq<PolicyInputModel>,
    rest: SnapshotModel,
)
    requires
        a_ids.to_multiset() == b_ids.to_multiset(),
        forall|name: Seq<char>| #[trigger] named_value(a, name) == named_value(b, name),
    ensures
        ({
            let first = SnapshotModel {
                evidence_ids: text::sorted_texts(a_ids),
                policy_inputs: named_inputs(a),
                ..rest
            };
            let second = SnapshotModel {
                evidence_ids: text::sorted_texts(b_ids),
                policy_inputs: named_inputs(b),
                ..rest
            };
            first.json() == second.json()
        }),
{
    broadcast use vstd::seq_lib::group_to_multiset_ensures;

    text::lemma_sort_ignores_arrangement(a_ids, b_ids);
    let x = named_inputs(a);
    let y = named_inputs(b);
    let name = |p: PolicyInputModel| p.name;
    let m = x.map_values(name);
    let n = y.map_values(name);
    lemma_named_inputs(a);
    lemma_named_inputs(b);
    lemma_names_are_distinct(x, m);
    lemma_names_are_distinct(y, n);
    assert forall|q: PolicyInputModel| x.contains(q) == y.contains(q) by {
        assert(named_value(a, q.name) == named_value(b, q.name));
    }
    assert forall|s: Seq<char>| m.contains(s) == n.contains(s) by {
        if m.contains(s) {
            let k = m.index_of(s);
            assert(x.contains(x[k]));
            assert(y.contains(x[k]));
            let l = y.index_of(x[k]);
            assert(n[l] == s);
        }
        if n.contains(s) {
            let k = n.index_of(s);
            assert(y.contains(y[k]));
            assert(x.contains(y[k]));
            let l = x.index_of(y[k]);
            assert(m[l] == s);
        }
    }
    m.lemma_multiset_has_no_duplicates();
    n.lemma_multiset_has_no_duplicates();
    assert(m.to_multiset() =~= n.to_multiset()) by {
        assert forall|s: Seq<char>| m.to_multiset().count(s) == n.to_multiset().count(s) by {
            assert(m.contains(s) <==> m.to_multiset().count(s) > 0);
            assert(n.contains(s) <==> n.to_multiset().count(s) > 0);
        }
    }
    text::lemma_lex_total_ordering();
    vstd::seq_lib::lemma_sorted_unique(m, n, text::lex_order());
    assert forall|i: int| 0 <= i < x.len() implies x[i] == y[i] by {
        assert(m[i] == n[i]);
        assert(x.contains(x[i]));
        assert(y.contains(y[i]));
        assert(x.contains(y[i]));
        assert(named_value(a, x[i].name) == Some(x[i].json));
        assert(named_value(a, y[i].name) == Some(y[i].json));
    }
    assert(x =~= y);
}

fn put_input(inputs: &mut Vec<PolicyInput>, input: PolicyInput)
    ensures
        policy_input_views(final(inputs)@) == with_input(
            policy_input_views(old(inputs)@),
            input@,
        ),
{
    let ghost all = policy_input_views(inputs@);
    let mut at: usize = 0;
    while at < inputs.len() && text::text_le(&inputs[at].name, &input.name) && !text::same(
        &inputs[at].name,
        &input.name,
    )
        invariant
            at <= inputs@.len(),
            all == policy_input_views(inputs@),
            order::place(all, input@, by_name(), 0) == order::place(
                all,
                input@,
                by_name(),
                at as int,
            ),
        decreases inputs@.len() - at,
    {
        assert(all[at as int] == inputs@[at as int]@);
        at = at + 1;
    }
    let ghost added = input@;
    if at < inputs.len() {
        assert(all[at as int] == inputs@[at as int]@);
        if text::same(&inputs[at].name, &input.name) {
            inputs.set(at, input);
            assert(policy_input_views(inputs@) =~= all.update(at as int, added));
            return;
        }
    }
    inputs.insert(at, input);
    assert(policy_input_views(inputs@) =~= all.insert(at as int, added));
}

fn name_inputs(inputs: Vec<PolicyInput>) -> (r: Vec<PolicyInput>)
    ensures
        policy_input_views(r@) == named_inputs(policy_input_views(inputs@)),
{
    let ghost all = policy_input_views(inputs@);
    let mut named: Vec<PolicyInput> = Vec::new();
    let mut i: usize = 0;
    proof {
        assert(all.take(0) =~= Seq::empty());
        assert(policy_input_views(named@) =~= Seq::empty());
    }
    while i < inputs.len()
        invariant
            i <= inputs@.len(),
            all == policy_input_views(inputs@),
            policy_input_views(named@) == named_inputs(all.take(i as int)),
        decreases inputs@.len() - i,
    {
        let item = PolicyInput { name: inputs[i].name.clone(), json: inputs[i].json.clone() };
        proof {
            assert(all[i as int] == inputs@[i as int]@);
            assert(item@ =~= all[i as int]);
            assert(all.take(i + 1).drop_last() =~= all.take(i as int));
            assert(all.take(i + 1).last() == all[i as int]);
        }
        put_input(&mut named, item);
        i = i + 1;
    }
    assert(all.take(all.len() as int) =~= all);
    named
}

impl View for EvidenceSnapshot {
    type V = SnapshotModel;

    open spec fn view(&self) -> SnapshotModel {
        SnapshotModel {
            schema_version: self.schema_version,
            artifact_id: self.artifact_id@,
            predecessor_id: text::opt_view(self.predecessor_id),
            policy_version: self.policy_version@,
            evidence_ids: text::views(self.evidence_ids@),
            policy_inputs: policy_input_views(self.policy_inputs@),
            artifact_row_version: self.artifact_row_version,
            predecessor_row_version: self.predecessor_row_version,
            index_generation: self.index_generation,
        }
    }
}

/// An optional text as a JSON value.
pub open spec fn json_opt_text(o: Option<Seq<char>>) -> Seq<char> {
    match o {
        Some(s) => json::json_quoted(s),
        None => "null"@,
    }
}

/// An optional integer as a JSON value.
pub open spec fn json_opt_int(o: Option<i64>) -> Seq<char> {
    match o {
        Some(n) => text::signed_decimal(n as int),
        None => "null"@,
    }
}

impl SnapshotModel {
    /// What is wrong with the snapshot, if anything.
    pub open spec fn fault(self) -> Option<LifecycleFault> {
        if self.schema_version != EVIDENCE_SNAPSHOT_VERSION {
            Some(LifecycleFault::UnsupportedEvidenceSnapshot(self.schema_version))
        } else if self.artifact_id.len() == 0 || self.policy_version.len() == 0
            || self.artifact_row_version < 1 || self.index_generation < 0 {
            Some(LifecycleFault::InvalidEvidenceSnapshot)
        } else if (self.predecessor_id is Some) != (self.predecessor_row_version is Some) {
            Some(LifecycleFault::InvalidEvidenceSnapshot)
        } else if self.predecessor_row_version is Some && self.predecessor_row_version->0 < 1 {
            Some(LifecycleFault::InvalidEvidenceSnapshot)
        } else if !self.evidence_ids.no_duplicates() {
            Some(LifecycleFault::DuplicateEvidenceId)
        } else {
            None
        }
    }

    /// The canonical encoding.
    pub open spec fn json(self) -> Seq<char> {
        "{\"schema_version\":"@ + text::decimal(self.schema_version as nat) + ",\"artifact_id\":"@
            + json::json_quoted(self.artifact_id) + ",\"predecessor_id\":"@ + json_opt_text(
            self.predecessor_id,
        ) + ",\"policy_version\":"@ + json::json_quoted(self.policy_version)
            + ",\"evidence_ids\":["@ + text::joined(
            self.evidence_ids.map_values(|id: Seq<char>| json::json_quoted(id)),
            ","@,
        ) + "],\"policy_inputs\":{"@ + text::joined(
            self.policy_inputs.map_values(
                |p: PolicyInputModel| json::json_quoted(p.name) + ":"@ + p.json,
            ),
            ","@,
        ) + "},\"artifact_row_version\":"@ + text::signed_decimal(self.artifact_row_version as int)
            + ",\"predecessor_row_version\":"@ + json_opt_int(self.predecessor_row_version)
            + ",\"index_generation\":"@ + text::signed_decimal(self.index_generation as int) + "}"@
    }
}

/// Reports whether two of the texts are equal.
pub fn has_repeated_text(v: &Vec<String>) -> (r: bool)
    ensures
        r == !text::views(v@).no_duplicates(),
{
    let ghost all = text::views(v@);
    let mut i: usize = 0;
    while i < v.len()
        invariant
            i <= v@.len(),
            all == text::views(v@),
            forall|p: int, q: int| 0 <= p < q < i ==> all[p] != all[q],
        decreases v@.len() - i,
    {
        let mut j: usize = 0;
        while j < i
            invariant
                j <= i < v@.len(),
                all == text::views(v@),
                forall|p: int| 0 <= p < j ==> all[p] != all[i as int],
            decreases i - j,
        {
            if text::same(&v[j], &v[i]) {
                assert(all[j as int] == all[i as int]);
                return true;
            }
            j = j + 1;
        }
        i = i + 1;
    }
    assert(all.no_duplicates());
    false
}

fn quote(s: &str) -> (r: String)
    ensures
        r@ == json::json_quoted(s@),
{
    match json::quote_json(s) {
        Ok(quoted) => quoted,
        Err(_) => String::new(),
    }
}

fn quote_opt(o: &Option<String>) -> (r: String)
    ensures
        r@ == json_opt_text(text::opt_view(*o)),
{
    match o {
        Some(s) => quote(s),
        None => "null".to_owned(),
    }
}

impl EvidenceSnapshot {
    /// Builds a snapshot with its evidence ids and its policy inputs in order, and validates
    /// it.
    pub fn new(
        artifact_id: String,
        predecessor_id: Option<String>,
        policy_version: String,
        evidence_ids: Vec<String>,
        policy_inputs: Vec<PolicyInput>,
        artifact_row_version: i64,
        predecessor_row_version: Option<i64>,
        index_generation: i64,
    ) -> (r: Result<EvidenceSnapshot, LifecycleError>)
        ensures
            ({
                let m = SnapshotModel {
                    schema_version: EVIDENCE_SNAPSHOT_VERSION,
                    artifact_id: artifact_id@,
                    predecessor_id: text::opt_view(predecessor_id),
                    policy_version: policy_version@,
                    evidence_ids: text::sorted_texts(text::views(evidence_ids@)),
                    policy_inputs: named_inputs(policy_input_views(policy_inputs@)),
                    artifact_row_version,
                    predecessor_row_version,
                    index_generation,
                };
                match r {
                    Ok(snapshot) => {
                        &&& text::views(evidence_ids@).no_duplicates()
                        &&& m.fault() is None
                        &&& snapshot@ == m
                    },
                    Err(e) => if text::views(evidence_ids@).no_duplicates() {
                        m.fault() == Some(e@)
                    } else {
                        e@ == LifecycleFault::DuplicateEvidenceId
                    },
                }
            }),
    {
        if has_repeated_text(&evidence_ids) {
            return Err(LifecycleError::DuplicateEvidenceId);
        }
        let snapshot = EvidenceSnapshot {
            schema_version: EVIDENCE_SNAPSHOT_VERSION,
            artifact_id,
            predecessor_id,
            policy_version,
            evidence_ids: text::sort_strings(evidence_ids),
            policy_inputs: name_inputs(policy_inputs),
            artifact_row_version,
            predecessor_row_version,
            index_generation,
        };
        match snapshot.validate() {
            Ok(()) => Ok(snapshot),
            Err(e) => Err(e),
        }
    }

    /// Checks the snapshot by itself.
    pub fn validate(&self) -> (r: Result<(), LifecycleError>)
        ensures
            match r {
                Ok(()) => self@.fault() is None,
                Err(e) => self@.fault() == Some(e@),
            },
    {
        if self.schema_version != EVIDENCE_SNAPSHOT_VERSION {
            return Err(LifecycleError::UnsupportedEvidenceSnapshot(self.schema_version));
        }
        if self.artifact_id.as_str().is_empty() || self.policy_version.as_str().is_empty()
            || self.artifact_row_version < 1 || self.index_generation < 0 {
            return Err(LifecycleError::InvalidEvidenceSnapshot);
        }
        if self.predecessor_id.is_some() != self.predecessor_row_version.is_some() {
            return Err(LifecycleError::InvalidEvidenceSnapshot);
        }
        if let Some(version) = self.predecessor_row_version {
            if version < 1 {
                return Err(LifecycleError::InvalidEvidenceSnapshot);
            }
        }
        if has_repeated_text(&self.evidence_ids) {
            return Err(LifecycleError::DuplicateEvidenceId);
        }
        Ok(())
    }

    /// Validates the snapshot and renders its canonical encoding.
    pub fn canonical_json(&self) -> (r: Result<String, LifecycleError>)
        ensures
            match r {
                Ok(encoded) => self@.fault() is None && encoded@ == self@.json(),
                Err(e) => self@.fault() == Some(e@),
            },
    {
        match self.validate() {
            Ok(()) => {},
            Err(e) => {
                return Err(e);
            },
        }
        let ghost m = self@;
        let ghost wanted_ids = m.evidence_ids.map_values(|id: Seq<char>| json::json_quoted(id));
        let mut ids: Vec<String> = Vec::new();
        let mut i: usize = 0;
        while i < self.evidence_ids.len()
            invariant
                i <= self.evidence_ids@.len(),
                m == self@,
                wanted_ids == m.evidence_ids.map_values(|id: Seq<char>| json::json_quoted(id)),
                text::views(ids@) =~= wanted_ids.take(i as int),
            decreases self.evidence_ids@.len() - i,
        {
            let ghost before = text::views(ids@);
            let item = quote(&self.evidence_ids[i]);
            assert(wanted_ids[i as int] == item@);
            ids.push(item);
            assert(text::views(ids@) =~= before.push(item@));
            i = i + 1;
        }
        assert(wanted_ids.take(wanted_ids.len() as int) =~= wanted_ids);
        let ghost wanted_inputs = m.policy_inputs.map_values(
            |p: PolicyInputModel| json::json_quoted(p.name) + ":"@ + p.json,
        );
        let mut inputs: Vec<String> = Vec::new();
        let mut k: usize = 0;
        while k < self.policy_inputs.len()
            invariant
                k <= self.policy_inputs@.len(),
                m == self@,
                wanted_inputs == m.policy_inputs.map_values(
                    |p: PolicyInputModel| json::json_quoted(p.name) + ":"@ + p.json,
                ),
                text::views(inputs@) =~= wanted_inputs.take(k as int),
            decreases self.policy_inputs@.len() - k,
        {
            let ghost before = text::views(inputs@);
            let name = quote(&self.policy_inputs[k].name);
            let item = text::join3(&name, ":", &self.policy_inputs[k].json);
            assert(m.policy_inputs[k as int] == self.policy_inputs@[k as int]@);
            assert(wanted_inputs[k as int] == item@);
            inputs.push(item);
            assert(text::views(inputs@) =~= before.push(item@));
            k = k + 1;
        }
        assert(wanted_inputs.take(wanted_inputs.len() as int) =~= wanted_inputs);
        let mut out = "{\"schema_version\":".to_owned();
        let version = text::render_u64(self.schema_version as u64);
        out.append(&version);
        out.append(",\"artifact_id\":");
        let artifact_id = quote(&self.artifact_id);
        out.append(&artifact_id);
        out.append(",\"predecessor_id\":");
        let predecessor_id = quote_opt(&self.predecessor_id);
        out.append(&predecessor_id);
        out.append(",\"policy_version\":");
        let policy_version = quote(&self.policy_version);
        out.append(&policy_version);
        out.append(",\"evidence_ids\":[");
        let evidence_ids = text::join(&ids, ",");
        out.append(&evidence_ids);
        out.append("],\"policy_inputs\":{");
        let policy_inputs = text::join(&inputs, ",");
        out.append(&policy_inputs);
        out.append("},\"artifact_row_version\":");
        let artifact_row_version = text::render_i64(self.artifact_row_version);
        out.append(&artifact_row_version);
        out.append(",\"predecessor_row_version\":");
        let predecessor_row_version = match self.predecessor_row_version {
            Some(n) => text::render_i64(n),
            None => "null".to_owned(),
        };
        out.append(&predecessor_row_version);
        out.append(",\"index_generation\":");
        let index_generation = text::render_i64(self.index_generation);
        out.append(&index_generation);
        out.append("}");
        Ok(out)
    }
}

/// A revision as lifecycle decisions read it.
#[derive(Debug, Clone, PartialEq, Eq)]
pub struct RevisionState {
    pub id: String,
    pub status: LifecycleStatus,
    pub supersedes_id: Option<String>,
    pub superseded_by_id: Option<String>,
    pub lineage_root_id: String,
    pub row_version: i64,
}

/// The contents of a [`RevisionState`].
#[verifier::ext_equal]
pub struct RevisionStateModel {
    pub id: Seq<char>,
    pub status: LifecycleStatus,
    pub supersedes_id: Option<Seq<char>>,
    pub superseded_by_id: Option<Seq<char>>,
    pub lineage_root_id: Seq<char>,
    pub row_version: i64,
}

impl View for RevisionState {
    type V = RevisionStateModel;

    open spec fn view(&self) -> RevisionStateModel {
        RevisionStateModel {
            id: self.id@,
            status: self.status,
            supersedes_id: text::opt_view(self.supersedes_id),
            superseded_by_id: text::opt_view(self.superseded_by_id),
            lineage_root_id: self.lineage_root_id@,
            row_version: self.row_version,
        }
    }
}

/// A request to move one revision.
#[derive(Debug, Clone)]
pub struct TransitionRequest {
    pub idempotency_key: String,
    pub skill_id: String,
    pub from_status: LifecycleStatus,
    pub to_status: LifecycleStatus,
    pub expected_row_version: i64,
    pub reason: String,
    pub snapshot: EvidenceSnapshot,
}

/// What an applied or replayed transition reached.
#[derive(Debug, Clone, PartialEq, Eq)]
pub struct TransitionOutcome {
    pub transition_id: i64,
    pub skill_id: String,
    pub status: LifecycleStatus,
    pub row_version: i64,
    pub desired_generation: i64,
    pub replayed: bool,
}

/// The contents of a [`TransitionOutcome`].
#[verifier::ext_equal]
pub struct TransitionOutcomeModel {
    pub transition_id: i64,
    pub skill_id: Seq<char>,
    pub status: LifecycleStatus,
    pub row_version: i64,
    pub desired_generation: i64,
    pub replayed: bool,
}

impl View for TransitionOutcome {
    type V = TransitionOutcomeModel;

    open spec fn view(&self) -> TransitionOutcomeModel {
        TransitionOutcomeModel {
            transition_id: self.transition_id,
            skill_id: self.skill_id@,
            status: self.status,
            row_version: self.row_version,
            desired_generation: self.desired_generation,
            replayed: self.replayed,
        }
    }
}

/// A request to move a candidate and its predecessor together.
#[derive(Debug, Clone)]
pub struct ReplacementTransitionRequest {
    pub idempotency_key: String,
    pub candidate_id: String,
    pub predecessor_id: String,
    pub candidate_row_version: i64,
    pub predecessor_row_version: i64,
    pub reason: String,
    pub snapshot: EvidenceSnapshot,
}

/// What an applied or replayed replacement reached.
#[derive(Debug, Clone, PartialEq, Eq)]
pub struct ReplacementTransitionOutcome {
    pub candidate_status: LifecycleStatus,
    pub predecessor_status: LifecycleStatus,
    pub candidate_row_version: i64,
    pub predecessor_row_version: i64,
    pub desired_generation: i64,
    pub replayed: bool,
}

/// An authenticated human action bound to one row version and evaluation report.
#[derive(Debug, Clone)]
pub struct HumanApproval {
    pub approval_id: String,
    pub actor_id: String,
    pub evaluation_report_id: String,
    pub expected_row_version: i64,
}

/// A single-use authority that the approval store issued.
#[derive(Debug, Clone)]
pub struct ApprovalAuthorization {
    pub authorization_id: String,
    pub principal: String,
}

impl ApprovalAuthorization {
    /// The authority was issued for this approval and this actor.
    pub open spec fn spec_binds(self, approval_id: Seq<char>, actor_id: Seq<char>) -> bool {
        self.authorization_id@ == approval_id && self.principal@ == actor_id
    }

    pub fn binds_approval(&self, approval_id: &str, actor_id: &str) -> (r: bool)
        ensures
            r == self.spec_binds(approval_id@, actor_id@),
    {
        text::same(&self.authorization_id, approval_id) && text::same(&self.principal, actor_id)
    }
}

/// The step that an authority is for.
#[derive(Debug, Clone, Copy, PartialEq, Eq, Structural)]
pub enum ApprovalTransition {
    VerifiedToCanary,
    CanaryToActive,
}

/// What is asked of the approval store when an authority is issued. The digest is that
/// of the artifact's capability manifest, as the approval store derives it.
#[derive(Debug, Clone, PartialEq, Eq)]
pub struct ApprovalAuthorizationRequest {
    pub authorization_id: String,
    pub principal: String,
    pub artifact_id: String,
    pub report_id: String,
    pub manifest_digest: String,
    pub transition: ApprovalTransition,
    pub issued_at: i64,
    pub expires_at: i64,
}

/// What is asked of the approval store when an authority is consumed.
#[derive(Debug, Clone, PartialEq, Eq)]
pub struct ConsumptionRequest {
    pub authorization_id: String,
    pub principal: String,
    pub artifact_id: String,
    pub report_id: String,
    pub transition: ApprovalTransition,
    pub consumed_at: i64,
}

impl ConsumptionRequest {
    /// The authority is consumed for the step of a canary to active: for this skill and
    /// for the report that the approval names.
    pub open spec fn spends(
        self,
        skill_id: Seq<char>,
        approval: HumanApproval,
        authorization: ApprovalAuthorization,
        created_at: i64,
    ) -> bool {
        &&& self.authorization_id@ == authorization.authorization_id@
        &&& self.principal@ == authorization.principal@
        &&& self.artifact_id@ == skill_id
        &&& self.report_id@ == approval.evaluation_report_id@
        &&& self.transition == ApprovalTransition::CanaryToActive
        &&& self.consumed_at == created_at
    }
}

/// What to ask of the approval store when a canary is to become active.
pub fn consumption_request(
    skill_id: &str,
    approval: &HumanApproval,
    authorization: &ApprovalAuthorization,
    created_at: i64,
) -> (r: ConsumptionRequest)
    ensures
        r.spends(skill_id@, *approval, *authorization, created_at),
{
    ConsumptionRequest {
        authorization_id: authorization.authorization_id.clone(),
        principal: authorization.principal.clone(),
        artifact_id: skill_id.to_owned(),
        report_id: approval.evaluation_report_id.clone(),
        transition: ApprovalTransition::CanaryToActive,
        consumed_at: created_at,
    }
}

/// How a replacement promotion is authorized.
///
/// `EvidenceThreshold` carries what the durable promotion policy found against the
/// promotion, if anything. `LocalOwner` is the explicit operator surface: it does
/// not consult the policy and instead consumes a single-use approval authority
/// bound to a second, distinct local-owner action; `consumed` is what the approval
/// store answered when asked to consume it for this promotion.
#[derive(Debug)]
pub enum PromotionAuthority<'a> {
    EvidenceThreshold { held: Option<String> },
    LocalOwner {
        approval: &'a HumanApproval,
        authorization: &'a ApprovalAuthorization,
        consumed: Result<(), StoreError>,
    },
}

/// Why a lifecycle operation was refused.
#[derive(Debug)]
pub enum LifecycleError {
    Store(StoreError),
    Json(serde_json::Error),
    UnknownStatus(String),
    IllegalTransition {
        /// Which side of the transition was wrong: `revision`, `candidate` or
        /// `predecessor`.
        role: &'static str,
        skill_id: String,
        from: LifecycleStatus,
        to: LifecycleStatus,
    },
    StaleRowVersion { skill_id: String, expected: i64, actual: i64 },
    StaleGeneration { expected: i64, actual: i64 },
    EvidenceMismatch,
    DuplicateEvidenceId,
    UnsupportedEvidenceSnapshot(u32),
    InvalidEvidenceSnapshot,
    UnknownPolicyVersion(String),
    UnknownEvidence,
    IdempotencyConflict,
    LineageCycle,
    LineageFork,
    RejectedIsTerminal,
    InvalidHumanApproval,
    ApprovalMismatch {
        skill_id: String,
        /// The precondition that failed.
        field: &'static str,
        expected: String,
        observed: String,
    },
    NotLineageRoot,
    PrivilegedTransition,
    PromotionHeld(String),
}

/// The contents of a [`LifecycleError`].
#[verifier::ext_equal]
pub enum LifecycleFault {
    Store(StoreFault),
    Json(serde_json::Error),
    UnknownStatus(Seq<char>),
    IllegalTransition {
        role: Seq<char>,
        skill_id: Seq<char>,
        from: LifecycleStatus,
        to: LifecycleStatus,
    },
    StaleRowVersion { skill_id: Seq<char>, expected: i64, actual: i64 },
    StaleGeneration { expected: i64, actual: i64 },
    EvidenceMismatch,
    DuplicateEvidenceId,
    UnsupportedEvidenceSnapshot(u32),
    InvalidEvidenceSnapshot,
    UnknownPolicyVersion(Seq<char>),
    UnknownEvidence,
    IdempotencyConflict,
    LineageCycle,
    LineageFork,
    RejectedIsTerminal,
    InvalidHumanApproval,
    ApprovalMismatch {
        skill_id: Seq<char>,
        field: Seq<char>,
        expected: Seq<char>,
        observed: Seq<char>,
    },
    NotLineageRoot,
    PrivilegedTransition,
    PromotionHeld(Seq<char>),
}

impl View for LifecycleError {
    type V = LifecycleFault;

    open spec fn view(&self) -> LifecycleFault {
        match *self {
            LifecycleError::Store(e) => LifecycleFault::Store(e@),
            LifecycleError::Json(e) => LifecycleFault::Json(e),
            LifecycleError::UnknownStatus(s) => LifecycleFault::UnknownStatus(s@),
            LifecycleError::IllegalTransition { role, skill_id, from, to } => {
                LifecycleFault::IllegalTransition { role: role@, skill_id: skill_id@, from, to }
            },
            LifecycleError::StaleRowVersion { skill_id, expected, actual } => {
                LifecycleFault::StaleRowVersion { skill_id: skill_id@, expected, actual }
            },
            LifecycleError::StaleGeneration { expected, actual } => {
                LifecycleFault::StaleGeneration { expected, actual }
            },
            LifecycleError::EvidenceMismatch => LifecycleFault::EvidenceMismatch,
            LifecycleError::DuplicateEvidenceId => LifecycleFault::DuplicateEvidenceId,
            LifecycleError::UnsupportedEvidenceSnapshot(v) => {
                LifecycleFault::UnsupportedEvidenceSnapshot(v)
            },
            LifecycleError::InvalidEvidenceSnapshot => LifecycleFault::InvalidEvidenceSnapshot,
            LifecycleError::UnknownPolicyVersion(v) => LifecycleFault::UnknownPolicyVersion(v@),
            LifecycleError::UnknownEvidence => LifecycleFault::UnknownEvidence,
            LifecycleError::IdempotencyConflict => LifecycleFault::IdempotencyConflict,
            LifecycleError::LineageCycle => LifecycleFault::LineageCycle,
            LifecycleError::LineageFork => LifecycleFault::LineageFork,
            LifecycleError::RejectedIsTerminal => LifecycleFault::RejectedIsTerminal,
            LifecycleError::InvalidHumanApproval => LifecycleFault::InvalidHumanApproval,
            LifecycleError::ApprovalMismatch { skill_id, field, expected, observed } => {
                LifecycleFault::ApprovalMismatch {
                    skill_id: skill_id@,
                    field: field@,
                    expected: expected@,
                    observed: observed@,
                }
            },
            LifecycleError::NotLineageRoot => LifecycleFault::NotLineageRoot,
            LifecycleError::PrivilegedTransition => LifecycleFault::PrivilegedTransition,
            LifecycleError::PromotionHeld(reasons) => LifecycleFault::PromotionHeld(reasons@),
        }
    }
}

impl LifecycleFault {
    /// The sentence that reports the fault; `None` where a wrapped error speaks
    /// for itself.
    pub open spec fn sentence(self) -> Option<Seq<char>> {
        match self {
            LifecycleFault::Store(_) => None,
            LifecycleFault::Json(_) => None,
            LifecycleFault::UnknownStatus(s) => Some("unknown lifecycle status in storage: "@ + s),
            LifecycleFault::IllegalTransition { role, skill_id, from, to } => Some(
                "illegal lifecycle transition for the "@ + role + " "@ + skill_id + ": "@
                    + from.token() + " -> "@ + to.token(),
            ),
            LifecycleFault::StaleRowVersion { skill_id, expected, actual } => Some(
                "stale row version for "@ + skill_id + ": expected "@ + text::signed_decimal(
                    expected as int,
                ) + ", actual "@ + text::signed_decimal(actual as int),
            ),
            LifecycleFault::StaleGeneration { expected, actual } => Some(
                "stale index generation: expected "@ + text::signed_decimal(expected as int)
                    + ", actual "@ + text::signed_decimal(actual as int),
            ),
            LifecycleFault::EvidenceMismatch => Some(
                "evidence snapshot does not match the transition request"@,
            ),
            LifecycleFault::DuplicateEvidenceId => Some("duplicate evidence identifier"@),
            LifecycleFault::UnsupportedEvidenceSnapshot(v) => Some(
                "unsupported evidence snapshot version: "@ + text::decimal(v as nat),
            ),
            LifecycleFault::InvalidEvidenceSnapshot => Some("invalid evidence snapshot"@),
            LifecycleFault::UnknownPolicyVersion(v) => Some(
                "policy version is not registered: "@ + v,
            ),
            LifecycleFault::UnknownEvidence => Some(
                "evidence snapshot references missing or mismatched durable evidence"@,
            ),
            LifecycleFault::IdempotencyConflict => Some(
                "idempotency key was already used for a different transition"@,
            ),
            LifecycleFault::LineageCycle => Some("lineage cycle detected"@),
            LifecycleFault::LineageFork => Some("lineage fork detected"@),
            LifecycleFault::RejectedIsTerminal => Some("revision is terminally rejected"@),
            LifecycleFault::InvalidHumanApproval => Some(
                "authenticated human approval is missing, stale, or invalid"@,
            ),
            LifecycleFault::ApprovalMismatch { skill_id, field, expected, observed } => Some(
                "authenticated human approval does not match "@ + field + " for "@ + skill_id
                    + ": expected "@ + expected + ", observed "@ + observed,
            ),
            LifecycleFault::NotLineageRoot => Some(
                "lineage-root activation was attempted on a replacement"@,
            ),
            LifecycleFault::PrivilegedTransition => Some(
                "privileged admission/activation/supersession requires its dedicated atomic service"@,
            ),
            LifecycleFault::PromotionHeld(reasons) => Some(
                "stored evidence does not qualify this replacement for promotion: "@ + reasons,
            ),
        }
    }
}

impl LifecycleError {
    /// The sentence that reports the error; `None` where a wrapped error speaks
    /// for itself.
    pub fn message(&self) -> (r: Option<String>)
        ensures
            text::opt_view(r) == self@.sentence(),
    {
        match self {
            LifecycleError::Store(_) => None,
            LifecycleError::Json(_) => None,
            LifecycleError::UnknownStatus(s) => Some(
                text::join2("unknown lifecycle status in storage: ", s),
            ),
            LifecycleError::IllegalTransition { role, skill_id, from, to } => {
                let mut out = text::join3("illegal lifecycle transition for the ", role, " ");
                out.append(skill_id);
                out.append(": ");
                out.append(from.as_token());
                out.append(" -> ");
                out.append(to.as_token());
                Some(out)
            },
            LifecycleError::StaleRowVersion { skill_id, expected, actual } => {
                let mut out = text::join3("stale row version for ", skill_id, ": expected ");
                let expected = text::render_i64(*expected);
                let actual = text::render_i64(*actual);
                out.append(&expected);
                out.append(", actual ");
                out.append(&actual);
                Some(out)
            },
            LifecycleError::StaleGeneration { expected, actual } => {
                let expected = text::render_i64(*expected);
                let actual = text::render_i64(*actual);
                let mut out = text::join3(
                    "stale index generation: expected ",
                    &expected,
                    ", actual ",
                );
                out.append(&actual);
                Some(out)
            },
            LifecycleError::EvidenceMismatch => Some(
                "evidence snapshot does not match the transition request".to_owned(),
            ),
            LifecycleError::DuplicateEvidenceId => Some(
                "duplicate evidence identifier".to_owned(),
            ),
            LifecycleError::UnsupportedEvidenceSnapshot(v) => {
                let version = text::render_u64(*v as u64);
                Some(text::join2("unsupported evidence snapshot version: ", &version))
            },
            LifecycleError::InvalidEvidenceSnapshot => Some(
                "invalid evidence snapshot".to_owned(),
            ),
            LifecycleError::UnknownPolicyVersion(v) => Some(
                text::join2("policy version is not registered: ", v),
            ),
            LifecycleError::UnknownEvidence => Some(
                "evidence snapshot references missing or mismatched durable evidence".to_owned(),
            ),
            LifecycleError::IdempotencyConflict => Some(
                "idempotency key was already used for a different transition".to_owned(),
            ),
            LifecycleError::LineageCycle => Some("lineage cycle detected".to_owned()),
            LifecycleError::LineageFork => Some("lineage fork detected".to_owned()),
            LifecycleError::RejectedIsTerminal => Some(
                "revision is terminally rejected".to_owned(),
            ),
            LifecycleError::InvalidHumanApproval => Some(
                "authenticated human approval is missing, stale, or invalid".to_owned(),
            ),
            LifecycleError::ApprovalMismatch { skill_id, field, expected, observed } => {
                let mut out = text::join3(
                    "authenticated human approval does not match ",
                    field,
                    " for ",
                );
                out.append(skill_id);
                out.append(": expected ");
                out.append(expected);
                out.append(", observed ");
                out.append(observed);
                Some(out)
            },
            LifecycleError::NotLineageRoot => Some(
                "lineage-root activation was attempted on a replacement".to_owned(),
            ),
            LifecycleError::PrivilegedTransition => Some(
                "privileged admission/activation/supersession requires its dedicated atomic service".to_owned(),
            ),
            LifecycleError::PromotionHeld(reasons) => Some(
                text::join2(
                    "stored evidence does not qualify this replacement for promotion: ",
                    reasons,
                ),
            ),
        }
    }
}

/// Names the exact precondition an authenticated approval failed, and the value
/// observed instead.
pub fn approval_mismatch(
    skill_id: &str,
    field: &'static str,
    expected: &str,
    observed: &str,
) -> (r: LifecycleError)
    ensures
        r@ == mismatch(skill_id@, field@, expected@, observed@),
{
    LifecycleError::ApprovalMismatch {
        skill_id: skill_id.to_owned(),
        field,
        expected: expected.to_owned(),
        observed: observed.to_owned(),
    }
}

pub open spec fn mismatch(
    skill_id: Seq<char>,
    field: Seq<char>,
    expected: Seq<char>,
    observed: Seq<char>,
) -> LifecycleFault {
    LifecycleFault::ApprovalMismatch { skill_id, field, expected, observed }
}

fn version_mismatch(skill_id: &str, field: &'static str, expected: i64, observed: i64) -> (r:
    LifecycleError)
    ensures
        r@ == mismatch(
            skill_id@,
            field@,
            text::signed_decimal(expected as int),
            text::signed_decimal(observed as int),
        ),
{
    let expected = text::render_i64(expected);
    let observed = text::render_i64(observed);
    approval_mismatch(skill_id, field, &expected, &observed)
}

/// An optional text, or `none`.
pub open spec fn or_none(o: Option<Seq<char>>) -> Seq<char> {
    match o {
        Some(s) => s,
        None => "none"@,
    }
}

fn text_or_none(o: &Option<String>) -> (r: String)
    ensures
        r@ == or_none(text::opt_view(*o)),
{
    match o {
        Some(s) => s.clone(),
        None => "none".to_owned(),
    }
}

/// The name that `uuid` gives a fresh random identifier, hyphenated.
///
/// Calls `uuid::Uuid::new_v4`. Which identifier comes back is chance; its
/// hyphenated form always has thirty-six characters.
#[verifier::external_body]
pub(crate) fn fresh_uuid() -> (r: String)
    ensures
        r@.len() == 36,
{
    uuid::Uuid::new_v4().to_string()
}

impl HumanApproval {
    /// The approval can be bound to a row at all.
    pub open spec fn well_formed(self) -> bool {
        &&& self.approval_id@.len() > 0
        &&& self.actor_id@.len() > 0
        &&& self.evaluation_report_id@.len() > 0
        &&& self.expected_row_version >= 1
    }

    /// An approval under a given approval id.
    pub fn verified(
        approval_id: String,
        actor_id: String,
        evaluation_report_id: String,
        expected_row_version: i64,
    ) -> (r: Result<HumanApproval, LifecycleError>)
        ensures
            ({
                let approval = HumanApproval {
                    approval_id,
                    actor_id,
                    evaluation_report_id,
                    expected_row_version,
                };
                match r {
                    Ok(v) => approval.well_formed() && v == approval,
                    Err(e) => !approval.well_formed() && e@ == LifecycleFault::InvalidHumanApproval,
                }
            }),
    {
        let approval = HumanApproval {
            approval_id,
            actor_id,
            evaluation_report_id,
            expected_row_version,
        };
        match validate_human_approval(&approval) {
            Ok(()) => Ok(approval),
            Err(e) => Err(e),
        }
    }

    /// The local-owner approval under a fresh approval id.
    pub fn local_owner(evaluation_report_id: String, expected_row_version: i64) -> (r: Result<
        HumanApproval,
        LifecycleError,
    >)
        ensures
            r is Ok <==> evaluation_report_id@.len() > 0 && expected_row_version >= 1,
            r matches Ok(v) ==> {
                &&& exists|unique: Seq<char>|
                    unique.len() == 36 && v.approval_id@ == "local-owner-activation-"@ + unique
                &&& v.actor_id@ == "local-owner"@
                &&& v.evaluation_report_id == evaluation_report_id
                &&& v.expected_row_version == expected_row_version
            },
            r matches Err(e) ==> e@ == LifecycleFault::InvalidHumanApproval,
    {
        let unique = fresh_uuid();
        HumanApproval::local_owner_named(&unique, evaluation_report_id, expected_row_version)
    }

    /// The local-owner approval whose id ends in `unique`.
    pub fn local_owner_named(
        unique: &str,
        evaluation_report_id: String,
        expected_row_version: i64,
    ) -> (r: Result<HumanApproval, LifecycleError>)
        ensures
            r is Ok <==> evaluation_report_id@.len() > 0 && expected_row_version >= 1,
            r matches Ok(v) ==> {
                &&& v.approval_id@ == "local-owner-activation-"@ + unique@
                &&& v.actor_id@ == "local-owner"@
                &&& v.evaluation_report_id == evaluation_report_id
                &&& v.expected_row_version == expected_row_version
            },
            r matches Err(e) ==> e@ == LifecycleFault::InvalidHumanApproval,
    {
        proof {
            reveal_strlit("local-owner-activation-");
            reveal_strlit("local-owner");
        }
        let approval_id = text::join2("local-owner-activation-", unique);
        HumanApproval::verified(
            approval_id,
            "local-owner".to_owned(),
            evaluation_report_id,
            expected_row_version,
        )
    }
}

pub fn validate_human_approval(approval: &HumanApproval) -> (r: Result<(), LifecycleError>)
    ensures
        match r {
            Ok(()) => approval.well_formed(),
            Err(e) => !approval.well_formed() && e@ == LifecycleFault::InvalidHumanApproval,
        },
{
    if approval.approval_id.as_str().is_empty() || approval.actor_id.as_str().is_empty()
        || approval.evaluation_report_id.as_str().is_empty() || approval.expected_row_version < 1 {
        return Err(LifecycleError::InvalidHumanApproval);
    }
    Ok(())
}

/// A stored revision as lifecycle decisions read it.
pub open spec fn read_state(row: RevisionModel) -> Result<RevisionStateModel, LifecycleFault> {
    match status_of(row.status) {
        Some(status) => Ok(
            RevisionStateModel {
                id: row.artifact.id,
                status,
                supersedes_id: row.supersedes_id,
                superseded_by_id: row.superseded_by_id,
                lineage_root_id: row.root(),
                row_version: row.row_version,
            },
        ),
        None => Err(LifecycleFault::UnknownStatus(row.status)),
    }
}

/// The revision with an id as lifecycle decisions read it.
pub open spec fn revision_state(s: StoreModel, id: Seq<char>) -> Result<
    RevisionStateModel,
    LifecycleFault,
> {
    match s.revision(id) {
        Some(row) => read_state(row),
        None => Err(LifecycleFault::Store(StoreFault::NotFound(id))),
    }
}

/// Reads the revision with an id.
pub fn read_revision(store: &SkillStore, skill_id: &str) -> (r: Result<
    RevisionState,
    LifecycleError,
>)
    ensures
        match r {
            Ok(state) => revision_state(store@, skill_id@) == Ok::<_, LifecycleFault>(state@),
            Err(e) => revision_state(store@, skill_id@) == Err::<RevisionStateModel, _>(e@),
        },
{
    match store.find_revision(skill_id) {
        None => Err(LifecycleError::Store(StoreError::NotFound(skill_id.to_owned()))),
        Some(i) => {
            let row = &store.revisions[i];
            assert(store@.revisions[i as int] == row@);
            match LifecycleStatus::from_token(&row.status) {
                None => Err(LifecycleError::UnknownStatus(row.status.clone())),
                Some(status) => Ok(
                    RevisionState {
                        id: row.artifact.id.clone(),
                        status,
                        supersedes_id: text::clone_opt(&row.supersedes_id),
                        superseded_by_id: text::clone_opt(&row.superseded_by_id),
                        lineage_root_id: row.root(),
                        row_version: row.row_version,
                    },
                ),
            }
        },
    }
}

pub fn ensure_policy_exists(store: &SkillStore, version: &str) -> (r: Result<(), LifecycleError>)
    ensures
        match r {
            Ok(()) => store@.policy(version@) is Some,
            Err(e) => {
                &&& store@.policy(version@) is None
                &&& e@ == LifecycleFault::UnknownPolicyVersion(version@)
            },
        },
{
    match store.find_policy(version) {
        Some(_) => Ok(()),
        None => Err(LifecycleError::UnknownPolicyVersion(version.to_owned())),
    }
}

/// A piece of evidence that a snapshot names is stored under the snapshot's policy
/// version, belongs to the artifact or its predecessor, and is of the required kind.
pub open spec fn evidence_acceptable(
    s: StoreModel,
    m: SnapshotModel,
    id: Seq<char>,
    kind: Option<Seq<char>>,
) -> bool {
    match s.evidence_under(id, m.policy_version) {
        None => false,
        Some(e) => {
            &&& e.skill_id == m.artifact_id || Some(e.skill_id) == m.predecessor_id
            &&& kind is Some ==> e.evidence_kind == kind->0
        },
    }
}

/// All the evidence that a snapshot names is acceptable, and there is some where
/// some is required.
pub open spec fn snapshot_evidence_holds(
    s: StoreModel,
    m: SnapshotModel,
    required: bool,
    kind: Option<Seq<char>>,
) -> bool {
    &&& required ==> m.evidence_ids.len() > 0
    &&& forall|i: int|
        0 <= i < m.evidence_ids.len() ==> evidence_acceptable(
            s,
            m,
            #[trigger] m.evidence_ids[i],
            kind,
        )
}

/// An optional literal as a text.
pub open spec fn kind_view(kind: Option<&'static str>) -> Option<Seq<char>> {
    match kind {
        Some(k) => Some(k@),
        None => None,
    }
}

pub fn ensure_snapshot_evidence(
    store: &SkillStore,
    snapshot: &EvidenceSnapshot,
    require_evidence: bool,
    required_kind: Option<&'static str>,
) -> (r: Result<(), LifecycleError>)
    ensures
        match r {
            Ok(()) => snapshot_evidence_holds(
                store@,
                snapshot@,
                require_evidence,
                kind_view(required_kind),
            ),
            Err(e) => {
                &&& !snapshot_evidence_holds(
                    store@,
                    snapshot@,
                    require_evidence,
                    kind_view(required_kind),
                )
                &&& e@ == LifecycleFault::UnknownEvidence
            },
        },
{
    if require_evidence && snapshot.evidence_ids.len() == 0 {
        return Err(LifecycleError::UnknownEvidence);
    }
    let ghost m = snapshot@;
    let ghost kind = kind_view(required_kind);
    let mut i: usize = 0;
    while i < snapshot.evidence_ids.len()
        invariant
            i <= snapshot.evidence_ids@.len(),
            m == snapshot@,
            kind == kind_view(required_kind),
            forall|j: int|
                0 <= j < i ==> evidence_acceptable(store@, m, #[trigger] m.evidence_ids[j], kind),
        decreases snapshot.evidence_ids@.len() - i,
    {
        assert(m.evidence_ids[i as int] == snapshot.evidence_ids@[i as int]@);
        match store.find_evidence(&snapshot.evidence_ids[i], &snapshot.policy_version) {
            None => {
                assert(!evidence_acceptable(store@, m, m.evidence_ids[i as int], kind));
                return Err(LifecycleError::UnknownEvidence);
            },
            Some(k) => {
                let row = &store.evidence[k];
                assert(store@.evidence[k as int] == row@);
                let mine = text::same(&row.skill_id, &snapshot.artifact_id) || text::is_text(
                    &snapshot.predecessor_id,
                    &row.skill_id,
                );
                let kind_fits = match required_kind {
                    Some(wanted) => text::same(&row.evidence_kind, wanted),
                    None => true,
                };
                if !mine || !kind_fits {
                    assert(!evidence_acceptable(store@, m, m.evidence_ids[i as int], kind));
                    return Err(LifecycleError::UnknownEvidence);
                }
                assert(evidence_acceptable(store@, m, m.evidence_ids[i as int], kind));
            },
        }
        i = i + 1;
    }
    Ok(())
}

/// The fault that a walk up the lineage meets, from `cursor` on, where `seen` are
/// the ancestors already passed. A walk longer than the table must repeat itself.
pub open spec fn ancestry_fault(
    rows: Seq<RevisionModel>,
    revision: RevisionStateModel,
    cursor: Option<Seq<char>>,
    seen: Seq<Seq<char>>,
) -> Option<LifecycleFault>
    decreases rows.len() + 1 - seen.len(),
{
    match cursor {
        None => None,
        Some(id) => if id == revision.id || seen.contains(id) || seen.len() > rows.len() {
            Some(LifecycleFault::LineageCycle)
        } else {
            match crate::store::position(rows, crate::store::revision_has_id(id)) {
                None => Some(LifecycleFault::LineageFork),
                Some(i) => if rows[i].root() != revision.lineage_root_id || (
                rows[i].supersedes_id is None && id != revision.lineage_root_id) {
                    Some(LifecycleFault::LineageFork)
                } else {
                    ancestry_fault(rows, revision, rows[i].supersedes_id, seen.push(id))
                },
            }
        },
    }
}

/// Another active revision replaces the same predecessor.
pub open spec fn has_active_sibling(rows: Seq<RevisionModel>, revision: RevisionStateModel) -> bool {
    revision.supersedes_id is Some && exists|i: int|
        0 <= i < rows.len() && (#[trigger] rows[i]).supersedes_id == revision.supersedes_id
            && rows[i].artifact.id != revision.id && rows[i].status == "active"@
}

/// What forbids a revision to reach `next` by its place in the lineage.
pub open spec fn lineage_fault(
    rows: Seq<RevisionModel>,
    revision: RevisionStateModel,
    next: LifecycleStatus,
) -> Option<LifecycleFault> {
    if revision.supersedes_id == Some(revision.id) || revision.superseded_by_id == Some(
        revision.id,
    ) {
        Some(LifecycleFault::LineageCycle)
    } else if revision.supersedes_id is None && revision.lineage_root_id != revision.id {
        Some(LifecycleFault::LineageFork)
    } else if ancestry_fault(rows, revision, revision.supersedes_id, Seq::empty()) is Some {
        ancestry_fault(rows, revision, revision.supersedes_id, Seq::empty())
    } else if next == LifecycleStatus::Active && has_active_sibling(rows, revision) {
        Some(LifecycleFault::LineageFork)
    } else {
        None
    }
}

/// Distinct ids that all occur in a table are no more than its rows.
proof fn lemma_seen_is_bounded(rows: Seq<RevisionModel>, seen: Seq<Seq<char>>)
    requires
        seen.no_duplicates(),
        forall|k: int|
            0 <= k < seen.len() ==> rows.map_values(|r: RevisionModel| r.artifact.id).contains(
                #[trigger] seen[k],
            ),
    ensures
        seen.len() <= rows.len(),
{
    let ids = rows.map_values(|r: RevisionModel| r.artifact.id);
    assert(seen.to_set().subset_of(ids.to_set())) by {
        assert forall|x: Seq<char>| seen.to_set().contains(x) implies ids.to_set().contains(x) by {
            let k = choose|k: int| 0 <= k < seen.len() && seen[k] == x;
            assert(ids.contains(seen[k]));
        }
    }
    seen.unique_seq_to_set();
    vstd::seq_lib::seq_to_set_is_finite(ids);
    vstd::set_lib::lemma_len_subset(seen.to_set(), ids.to_set());
    ids.lemma_cardinality_of_set();
}

pub fn validate_lineage(store: &SkillStore, revision: &RevisionState, next: LifecycleStatus) -> (r:
    Result<(), LifecycleError>)
    ensures
        match r {
            Ok(()) => lineage_fault(store@.revisions, revision@, next) is None,
            Err(e) => lineage_fault(store@.revisions, revision@, next) == Some(e@),
        },
{
    if text::is_text(&revision.supersedes_id, &revision.id) || text::is_text(
        &revision.superseded_by_id,
        &revision.id,
    ) {
        return Err(LifecycleError::LineageCycle);
    }
    if revision.supersedes_id.is_none() && !text::same(&revision.lineage_root_id, &revision.id) {
        return Err(LifecycleError::LineageFork);
    }
    let ghost rows = store@.revisions;
    let ghost ids = rows.map_values(|r: RevisionModel| r.artifact.id);
    let mut seen: Vec<String> = Vec::new();
    let mut cursor: Option<String> = text::clone_opt(&revision.supersedes_id);
    proof {
        assert(text::views(seen@) =~= Seq::empty());
    }
    while cursor.is_some()
        invariant
            rows == store@.revisions,
            ids == rows.map_values(|r: RevisionModel| r.artifact.id),
            !(revision@.supersedes_id == Some(revision@.id) || revision@.superseded_by_id == Some(
                revision@.id,
            )),
            !(revision@.supersedes_id is None && revision@.lineage_root_id != revision@.id),
            text::views(seen@).no_duplicates(),
            forall|k: int|
                0 <= k < text::views(seen@).len() ==> ids.contains(
                    #[trigger] text::views(seen@)[k],
                ),
            ancestry_fault(rows, revision@, revision@.supersedes_id, Seq::empty())
                == ancestry_fault(rows, revision@, text::opt_view(cursor), text::views(seen@)),
        decreases rows.len() + 1 - seen@.len(),
    {
        let id = match &cursor {
            Some(id) => id.clone(),
            None => String::new(),
        };
        proof {
            lemma_seen_is_bounded(rows, text::views(seen@));
        }
        if text::same(&id, &revision.id) || text::contains_text(&seen, &id) {
            return Err(LifecycleError::LineageCycle);
        }
        match store.find_revision(&id) {
            None => {
                return Err(LifecycleError::LineageFork);
            },
            Some(i) => {
                let row = &store.revisions[i];
                assert(rows[i as int] == row@);
                let root = row.root();
                if !text::same(&root, &revision.lineage_root_id) {
                    return Err(LifecycleError::LineageFork);
                }
                if row.supersedes_id.is_none() && !text::same(&id, &revision.lineage_root_id) {
                    return Err(LifecycleError::LineageFork);
                }
                let ghost before = text::views(seen@);
                proof {
                    assert(crate::store::first_match(
                        rows,
                        crate::store::revision_has_id(id@),
                        i as int,
                    ));
                    assert(ids[i as int] == id@);
                }
                cursor = text::clone_opt(&row.supersedes_id);
                let ghost passed = id@;
                seen.push(id);
                proof {
                    assert(text::views(seen@) =~= before.push(passed));
                }
            },
        }
    }
    match next {
        LifecycleStatus::Active => {
            if revision.supersedes_id.is_some() {
                let mut i: usize = 0;
                while i < store.revisions.len()
                    invariant
                        i <= store.revisions@.len(),
                        rows == store@.revisions,
                        next == LifecycleStatus::Active,
                        revision.supersedes_id is Some,
                        !(revision@.supersedes_id == Some(revision@.id)
                            || revision@.superseded_by_id == Some(revision@.id)),
                        ancestry_fault(
                            rows,
                            revision@,
                            revision@.supersedes_id,
                            Seq::empty(),
                        ) is None,
                        forall|j: int|
                            0 <= j < i ==> !((#[trigger] rows[j]).supersedes_id
                                == revision@.supersedes_id && rows[j].artifact.id != revision@.id
                                && rows[j].status == "active"@),
                    decreases store.revisions@.len() - i,
                {
                    let row = &store.revisions[i];
                    assert(rows[i as int] == row@);
                    if text::same_opt(&row.supersedes_id, &revision.supersedes_id) && !text::same(
                        &row.artifact.id,
                        &revision.id,
                    ) && text::same(&row.status, "active") {
                        assert(has_active_sibling(rows, revision@));
                        return Err(LifecycleError::LineageFork);
                    }
                    i = i + 1;
                }
            }
            assert(!has_active_sibling(rows, revision@));
        },
        _ => {},
    }
    Ok(())
}

/// What is wrong with a request by itself.
pub open spec fn request_fault(request: TransitionRequest) -> Option<LifecycleFault> {
    if !request.from_status.successors().contains(request.to_status) {
        Some(
            LifecycleFault::IllegalTransition {
                role: "revision"@,
                skill_id: request.skill_id@,
                from: request.from_status,
                to: request.to_status,
            },
        )
    } else if request.snapshot@.fault() is Some {
        request.snapshot@.fault()
    } else if request.idempotency_key@.len() == 0 || request.reason@.len() == 0 || request.skill_id@
        != request.snapshot@.artifact_id || request.expected_row_version
        != request.snapshot@.artifact_row_version {
        Some(LifecycleFault::EvidenceMismatch)
    } else {
        None
    }
}

pub fn validate_request(request: &TransitionRequest) -> (r: Result<(), LifecycleError>)
    ensures
        match r {
            Ok(()) => request_fault(*request) is None,
            Err(e) => request_fault(*request) == Some(e@),
        },
{
    if !request.from_status.may_transition_to(request.to_status) {
        return Err(
            LifecycleError::IllegalTransition {
                role: "revision",
                skill_id: request.skill_id.clone(),
                from: request.from_status,
                to: request.to_status,
            },
        );
    }
    match request.snapshot.validate() {
        Ok(()) => {},
        Err(e) => {
            return Err(e);
        },
    }
    if request.idempotency_key.as_str().is_empty() || request.reason.as_str().is_empty()
        || !text::same(&request.skill_id, &request.snapshot.artifact_id)
        || request.expected_row_version != request.snapshot.artifact_row_version {
        return Err(LifecycleError::EvidenceMismatch);
    }
    Ok(())
}

/// The outcome that a stored transition under the same idempotency key gives: the
/// recorded one where it is the same transition, and a conflict otherwise.
pub open spec fn replayed_transition(s: StoreModel, request: TransitionRequest) -> Option<
    Result<TransitionOutcomeModel, LifecycleFault>,
> {
    match s.transition(request.idempotency_key@) {
        None => None,
        Some(t) => Some(
            if t.skill_id != request.skill_id@ || t.from_status != request.from_status.token()
                || t.to_status != request.to_status.token() || t.evidence_snapshot
                != request.snapshot@.json() {
                Err(LifecycleFault::IdempotencyConflict)
            } else {
                Ok(
                    TransitionOutcomeModel {
                        transition_id: t.transition_id,
                        skill_id: t.skill_id,
                        status: request.to_status,
                        row_version: t.row_version_to,
                        desired_generation: t.desired_generation,
                        replayed: true,
                    },
                )
            },
        ),
    }
}

pub fn read_idempotent_transition(store: &SkillStore, request: &TransitionRequest) -> (r: Result<
    Option<TransitionOutcome>,
    LifecycleError,
>)
    requires
        request.snapshot@.fault() is None,
    ensures
        match r {
            Ok(None) => replayed_transition(store@, *request) is None,
            Ok(Some(outcome)) => replayed_transition(store@, *request) == Some(
                Ok::<_, LifecycleFault>(outcome@),
            ),
            Err(e) => replayed_transition(store@, *request) == Some(
                Err::<TransitionOutcomeModel, _>(e@),
            ),
        },
{
    match store.find_transition(&request.idempotency_key) {
        None => Ok(None),
        Some(i) => {
            let row = &store.transitions[i];
            assert(store@.transitions[i as int] == row@);
            let expected = match request.snapshot.canonical_json() {
                Ok(expected) => expected,
                Err(e) => {
                    return Err(e);
                },
            };
            if !text::same(&row.skill_id, &request.skill_id) || !text::same(
                &row.from_status,
                request.from_status.as_token(),
            ) || !text::same(&row.to_status, request.to_status.as_token()) || !text::same(
                &row.evidence_snapshot,
                &expected,
            ) {
                return Err(LifecycleError::IdempotencyConflict);
            }
            Ok(
                Some(
                    TransitionOutcome {
                        transition_id: row.transition_id,
                        skill_id: row.skill_id.clone(),
                        status: request.to_status,
                        row_version: row.row_version_to,
                        desired_generation: row.desired_generation,
                        replayed: true,
                    },
                ),
            )
        },
    }
}

/// Admission, activation and supersession have services of their own.
pub open spec fn is_privileged(from: LifecycleStatus, to: LifecycleStatus) -> bool {
    to == LifecycleStatus::Canary || to == LifecycleStatus::Active || (from
        == LifecycleStatus::Active && to == LifecycleStatus::Superseded)
}

/// What the store holds against a well-formed, unprivileged, new request.
pub open spec fn transition_fault(s: StoreModel, request: TransitionRequest) -> Option<
    LifecycleFault,
> {
    let m = request.snapshot@;
    if s.policy(m.policy_version) is None {
        Some(LifecycleFault::UnknownPolicyVersion(m.policy_version))
    } else if !snapshot_evidence_holds(s, m, false, None) {
        Some(LifecycleFault::UnknownEvidence)
    } else {
        match revision_state(s, request.skill_id@) {
            Err(f) => Some(f),
            Ok(current) => if current.status == LifecycleStatus::Rejected {
                Some(LifecycleFault::RejectedIsTerminal)
            } else if current.status != request.from_status {
                Some(
                    LifecycleFault::IllegalTransition {
                        role: "revision"@,
                        skill_id: current.id,
                        from: current.status,
                        to: request.to_status,
                    },
                )
            } else if current.row_version != request.expected_row_version {
                Some(
                    LifecycleFault::StaleRowVersion {
                        skill_id: current.id,
                        expected: request.expected_row_version,
                        actual: current.row_version,
                    },
                )
            } else if s.desired_generation != m.index_generation {
                Some(
                    LifecycleFault::StaleGeneration {
                        expected: m.index_generation,
                        actual: s.desired_generation,
                    },
                )
            } else {
                lineage_fault(s.revisions, current, request.to_status)
            },
        }
    }
}

/// The store with the revision at `at` moved to `to`, the generation advanced and
/// one transition row appended.
pub open spec fn with_transition(
    s: StoreModel,
    at: int,
    to: LifecycleStatus,
    row: TransitionModel,
    created_at: i64,
) -> StoreModel {
    StoreModel {
        revisions: s.revisions.update(
            at,
            RevisionModel {
                status: to.token(),
                row_version: (s.revisions[at].row_version + 1) as i64,
                updated_at: created_at,
                ..s.revisions[at]
            },
        ),
        transitions: s.transitions.push(row),
        next_transition_id: (s.next_transition_id + 1) as i64,
        desired_generation: (s.desired_generation + 1) as i64,
        generation_updated_at: created_at,
        ..s
    }
}

/// What a transition request comes to: its outcome and the store after it.
pub open spec fn transition_result(
    s: StoreModel,
    request: TransitionRequest,
    created_at: i64,
) -> Result<(TransitionOutcomeModel, StoreModel), LifecycleFault> {
    if request_fault(request) is Some {
        Err(request_fault(request)->0)
    } else if is_privileged(request.from_status, request.to_status) {
        Err(LifecycleFault::PrivilegedTransition)
    } else {
        match replayed_transition(s, request) {
            Some(Ok(outcome)) => Ok((outcome, s)),
            Some(Err(f)) => Err(f),
            None => match transition_fault(s, request) {
                Some(f) => Err(f),
                None => {
                    let at = s.revision_at(request.skill_id@)->0;
                    let row_version = s.revisions[at].row_version;
                    Ok(
                        (
                            TransitionOutcomeModel {
                                transition_id: s.next_transition_id,
                                skill_id: request.skill_id@,
                                status: request.to_status,
                                row_version: (row_version + 1) as i64,
                                desired_generation: (s.desired_generation + 1) as i64,
                                replayed: false,
                            },
                            with_transition(
                                s,
                                at,
                                request.to_status,
                                TransitionModel {
                                    transition_id: s.next_transition_id,
                                    idempotency_key: request.idempotency_key@,
                                    skill_id: request.skill_id@,
                                    predecessor_id: request.snapshot@.predecessor_id,
                                    from_status: request.from_status.token(),
                                    to_status: request.to_status.token(),
                                    reason: request.reason@,
                                    evidence_snapshot: request.snapshot@.json(),
                                    policy_version: request.snapshot@.policy_version,
                                    row_version_from: row_version,
                                    row_version_to: (row_version + 1) as i64,
                                    desired_generation: (s.desired_generation + 1) as i64,
                                    created_at,
                                },
                                created_at,
                            ),
                        ),
                    )
                },
            },
        }
    }
}

/// An operation returned what its specification says and left the store so.
pub open spec fn concludes<T, M>(
    result: Result<(M, StoreModel), LifecycleFault>,
    before: StoreModel,
    returned: Result<T, LifecycleError>,
    view: spec_fn(T) -> M,
    after: StoreModel,
) -> bool {
    match result {
        Ok((outcome, next)) => returned is Ok && view(returned->Ok_0) == outcome && after == next,
        Err(f) => returned is Err && returned->Err_0@ == f && after == before,
    }
}

/// Applies one lifecycle transition.
///
/// Every idempotency, policy, evidence, row-version, generation and lineage guard
/// is checked before anything is written.
pub fn transition_in_tx(
    store: &mut SkillStore,
    request: &TransitionRequest,
    created_at: i64,
) -> (r: Result<TransitionOutcome, LifecycleError>)
    requires
        request.expected_row_version < i64::MAX,
        old(store).desired_generation < i64::MAX,
        old(store).next_transition_id < i64::MAX,
    ensures
        concludes(
            transition_result(old(store)@, *request, created_at),
            old(store)@,
            r,
            |v: TransitionOutcome| v@,
            final(store)@,
        ),
{
    match validate_request(request) {
        Ok(()) => {},
        Err(e) => {
            return Err(e);
        },
    }
    let privileged = match request.to_status {
        LifecycleStatus::Canary | LifecycleStatus::Active => true,
        LifecycleStatus::Superseded => request.from_status == LifecycleStatus::Active,
        _ => false,
    };
    if privileged {
        return Err(LifecycleError::PrivilegedTransition);
    }
    match read_idempotent_transition(store, request) {
        Ok(Some(replayed)) => {
            return Ok(replayed);
        },
        Ok(None) => {},
        Err(e) => {
            return Err(e);
        },
    }
    match ensure_policy_exists(store, &request.snapshot.policy_version) {
        Ok(()) => {},
        Err(e) => {
            return Err(e);
        },
    }
    match ensure_snapshot_evidence(store, &request.snapshot, false, None) {
        Ok(()) => {},
        Err(e) => {
            return Err(e);
        },
    }
    let current = match read_revision(store, &request.skill_id) {
        Ok(current) => current,
        Err(e) => {
            return Err(e);
        },
    };
    if current.status == LifecycleStatus::Rejected {
        return Err(LifecycleError::RejectedIsTerminal);
    }
    if current.status != request.from_status {
        return Err(
            LifecycleError::IllegalTransition {
                role: "revision",
                skill_id: current.id,
                from: current.status,
                to: request.to_status,
            },
        );
    }
    if current.row_version != request.expected_row_version {
        return Err(
            LifecycleError::StaleRowVersion {
                skill_id: current.id,
                expected: request.expected_row_version,
                actual: current.row_version,
            },
        );
    }
    if store.desired_generation != request.snapshot.index_generation {
        return Err(
            LifecycleError::StaleGeneration {
                expected: request.snapshot.index_generation,
                actual: store.desired_generation,
            },
        );
    }
    match validate_lineage(store, &current, request.to_status) {
        Ok(()) => {},
        Err(e) => {
            return Err(e);
        },
    }
    let evidence_snapshot = match request.snapshot.canonical_json() {
        Ok(encoded) => encoded,
        Err(e) => {
            return Err(e);
        },
    };
    let next_generation: i64 = store.desired_generation + 1;
    let next_row_version: i64 = current.row_version + 1;
    let at = match store.find_revision(&request.skill_id) {
        Some(at) => at,
        None => {
            return Err(LifecycleError::Store(StoreError::NotFound(request.skill_id.clone())));
        },
    };
    let ghost before = store@;
    let kept = text::clone_opt(&store.revisions[at].superseded_by_id);
    store.update_revision(at, request.to_status.as_token(), next_row_version, kept, created_at);
    store.set_desired_generation(next_generation, created_at);
    let transition_id = store.append_transition(
        TransitionRow {
            transition_id: 0,
            idempotency_key: request.idempotency_key.clone(),
            skill_id: request.skill_id.clone(),
            predecessor_id: text::clone_opt(&request.snapshot.predecessor_id),
            from_status: request.from_status.as_token().to_owned(),
            to_status: request.to_status.as_token().to_owned(),
            reason: request.reason.clone(),
            evidence_snapshot,
            policy_version: request.snapshot.policy_version.clone(),
            row_version_from: current.row_version,
            row_version_to: next_row_version,
            desired_generation: next_generation,
            created_at,
        },
    );
    Ok(
        TransitionOutcome {
            transition_id,
            skill_id: request.skill_id.clone(),
            status: request.to_status,
            row_version: next_row_version,
            desired_generation: next_generation,
            replayed: false,
        },
    )
}

/// The debug rendering of what an approval id is bound to.
pub uninterp spec fn binding_text(
    skill_id: Seq<char>,
    kind: Seq<char>,
    actor_id: Seq<char>,
    row_version: i64,
    report_id: Seq<char>,
) -> Seq<char>;

/// Renders a tuple with `{:?}` of the standard library; the text depends on the
/// five values alone.
#[verifier::external_body]
fn render_binding(
    skill_id: &str,
    kind: &str,
    actor_id: &str,
    row_version: i64,
    report_id: &str,
) -> (r: String)
    ensures
        r@ == binding_text(skill_id@, kind@, actor_id@, row_version, report_id@),
{
    format!("{:?}", (skill_id, kind, actor_id, row_version, report_id))
}

/// The row that records an approval.
pub open spec fn approval_record(
    skill_id: Seq<char>,
    kind: Seq<char>,
    approval: HumanApproval,
    created_at: i64,
) -> ApprovalModel {
    ApprovalModel {
        approval_id: approval.approval_id@,
        skill_id,
        approval_kind: kind,
        actor_id: approval.actor_id@,
        artifact_row_version: approval.expected_row_version,
        evaluation_report_id: approval.evaluation_report_id@,
        created_at,
    }
}

/// A stored approval says what a new one would say.
pub open spec fn same_binding(a: ApprovalModel, b: ApprovalModel) -> bool {
    a == (ApprovalModel { created_at: a.created_at, ..b })
}

pub open spec fn binding_of(a: ApprovalModel) -> Seq<char> {
    binding_text(
        a.skill_id,
        a.approval_kind,
        a.actor_id,
        a.artifact_row_version,
        a.evaluation_report_id,
    )
}

/// What forbids an approval to be recorded: its id is bound to something else.
pub open spec fn approval_fault(s: StoreModel, record: ApprovalModel) -> Option<LifecycleFault> {
    match s.approval(record.approval_id) {
        None => None,
        Some(existing) => if same_binding(existing, record) {
            None
        } else {
            Some(
                mismatch(
                    record.skill_id,
                    "approval_id_binding"@,
                    binding_of(record),
                    binding_of(existing),
                ),
            )
        },
    }
}

/// The store with an approval recorded; one that is already there is kept.
pub open spec fn with_approval(s: StoreModel, record: ApprovalModel) -> StoreModel {
    if s.approval(record.approval_id) is Some {
        s
    } else {
        StoreModel { approvals: s.approvals.push(record), ..s }
    }
}

fn make_approval_row(skill_id: &str, kind: &str, approval: &HumanApproval, created_at: i64) -> (r:
    ApprovalRow)
    ensures
        r@ == approval_record(skill_id@, kind@, *approval, created_at),
{
    ApprovalRow {
        approval_id: approval.approval_id.clone(),
        skill_id: skill_id.to_owned(),
        approval_kind: kind.to_owned(),
        actor_id: approval.actor_id.clone(),
        artifact_row_version: approval.expected_row_version,
        evaluation_report_id: approval.evaluation_report_id.clone(),
        created_at,
    }
}

/// Checks that an approval can be recorded.
fn check_approval(store: &SkillStore, row: &ApprovalRow) -> (r: Result<(), LifecycleError>)
    ensures
        match r {
            Ok(()) => approval_fault(store@, row@) is None,
            Err(e) => approval_fault(store@, row@) == Some(e@),
        },
{
    match store.find_approval(&row.approval_id) {
        None => Ok(()),
        Some(i) => {
            let existing = &store.approvals[i];
            assert(store@.approvals[i as int] == existing@);
            proof {
                assert(crate::store::first_match(
                    store@.approvals,
                    crate::store::approval_has_id(row.approval_id@),
                    i as int,
                ));
            }
            if text::same(&existing.skill_id, &row.skill_id) && text::same(
                &existing.approval_kind,
                &row.approval_kind,
            ) && text::same(&existing.actor_id, &row.actor_id) && existing.artifact_row_version
                == row.artifact_row_version && text::same(
                &existing.evaluation_report_id,
                &row.evaluation_report_id,
            ) {
                return Ok(());
            }
            let expected = render_binding(
                &row.skill_id,
                &row.approval_kind,
                &row.actor_id,
                row.artifact_row_version,
                &row.evaluation_report_id,
            );
            let observed = render_binding(
                &existing.skill_id,
                &existing.approval_kind,
                &existing.actor_id,
                existing.artifact_row_version,
                &existing.evaluation_report_id,
            );
            Err(approval_mismatch(&row.skill_id, "approval_id_binding", &expected, &observed))
        },
    }
}

/// Records an approval; one that is already there is kept.
fn record_approval(store: &mut SkillStore, row: ApprovalRow)
    ensures
        final(store)@ == with_approval(old(store)@, row@),
{
    match store.find_approval(&row.approval_id) {
        None => store.append_approval(row),
        Some(_) => {},
    }
}

/// Records an approval. A second one under the same id must say the same.
pub fn insert_approval(
    store: &mut SkillStore,
    skill_id: &str,
    kind: &str,
    approval: &HumanApproval,
    created_at: i64,
) -> (r: Result<(), LifecycleError>)
    ensures
        ({
            let record = approval_record(skill_id@, kind@, *approval, created_at);
            match r {
                Ok(()) => {
                    &&& approval_fault(old(store)@, record) is None
                    &&& final(store)@ == with_approval(old(store)@, record)
                },
                Err(e) => {
                    &&& approval_fault(old(store)@, record) == Some(e@)
                    &&& final(store)@ == old(store)@
                },
            }
        }),
{
    let row = make_approval_row(skill_id, kind, approval, created_at);
    match check_approval(store, &row) {
        Ok(()) => {
            record_approval(store, row);
            Ok(())
        },
        Err(e) => Err(e),
    }
}

/// The approval that admitted a skill into canary.
pub open spec fn first_approval(s: StoreModel, skill_id: Seq<char>) -> Option<Seq<char>> {
    match s.approval_for(skill_id, "phase4_canary"@) {
        Some(a) => Some(a.approval_id),
        None => None,
    }
}

fn read_first_approval(store: &SkillStore, skill_id: &str) -> (r: Option<String>)
    ensures
        text::opt_view(r) == first_approval(store@, skill_id@),
{
    match store.find_approval_for(skill_id, "phase4_canary") {
        Some(i) => {
            assert(store@.approvals[i as int] == store.approvals@[i as int]@);
            Some(store.approvals[i].approval_id.clone())
        },
        None => None,
    }
}

/// The report that a stored revision names.
pub open spec fn stored_report(s: StoreModel, skill_id: Seq<char>) -> Option<Seq<char>> {
    match s.revision(skill_id) {
        Some(row) => row.evaluation_report_id,
        None => None,
    }
}

fn read_report(store: &SkillStore, skill_id: &str) -> (r: Option<String>)
    ensures
        text::opt_view(r) == stored_report(store@, skill_id@),
{
    match store.find_revision(skill_id) {
        Some(i) => {
            assert(store@.revisions[i as int] == store.revisions@[i as int]@);
            text::clone_opt(&store.revisions[i].evaluation_report_id)
        },
        None => None,
    }
}

/// What forbids the first authenticated approval of a root canary.
pub open spec fn root_canary_approval_fault(
    s: StoreModel,
    skill_id: Seq<char>,
    approval: HumanApproval,
    created_at: i64,
) -> Option<LifecycleFault> {
    if !approval.well_formed() {
        Some(LifecycleFault::InvalidHumanApproval)
    } else {
        match revision_state(s, skill_id) {
            Err(f) => Some(f),
            Ok(revision) => if revision.status != LifecycleStatus::Canary {
                Some(mismatch(skill_id, "status"@, "canary"@, revision.status.token()))
            } else if revision.supersedes_id is Some {
                Some(mismatch(skill_id, "supersedes_id"@, "none"@, revision.supersedes_id->0))
            } else if revision.row_version != approval.expected_row_version {
                Some(
                    mismatch(
                        skill_id,
                        "row_version"@,
                        text::signed_decimal(approval.expected_row_version as int),
                        text::signed_decimal(revision.row_version as int),
                    ),
                )
            } else if stored_report(s, skill_id) != Some(approval.evaluation_report_id@) {
                Some(
                    mismatch(
                        skill_id,
                        "evaluation_report_id"@,
                        approval.evaluation_report_id@,
                        or_none(stored_report(s, skill_id)),
                    ),
                )
            } else {
                approval_fault(
                    s,
                    approval_record(skill_id, "phase4_canary"@, approval, created_at),
                )
            },
        }
    }
}

/// Records the first authenticated approval after the unchanged verified artifact
/// has entered non-retrievable root canary.
pub fn record_canary_approval(
    store: &mut SkillStore,
    skill_id: &str,
    approval: &HumanApproval,
    created_at: i64,
) -> (r: Result<(), LifecycleError>)
    ensures
        match r {
            Ok(()) => {
                &&& root_canary_approval_fault(old(store)@, skill_id@, *approval, created_at) is None
                &&& final(store)@ == with_approval(
                    old(store)@,
                    approval_record(skill_id@, "phase4_canary"@, *approval, created_at),
                )
            },
            Err(e) => {
                &&& root_canary_approval_fault(old(store)@, skill_id@, *approval, created_at)
                    == Some(e@)
                &&& final(store)@ == old(store)@
            },
        },
{
    match validate_human_approval(approval) {
        Ok(()) => {},
        Err(e) => {
            return Err(e);
        },
    }
    let revision = match read_revision(store, skill_id) {
        Ok(revision) => revision,
        Err(e) => {
            return Err(e);
        },
    };
    let report = read_report(store, skill_id);
    if revision.status != LifecycleStatus::Canary {
        return Err(
            approval_mismatch(skill_id, "status", "canary", revision.status.as_token()),
        );
    }
    if let Some(supersedes) = &revision.supersedes_id {
        return Err(approval_mismatch(skill_id, "supersedes_id", "none", supersedes));
    }
    if revision.row_version != approval.expected_row_version {
        return Err(
            version_mismatch(
                skill_id,
                "row_version",
                approval.expected_row_version,
                revision.row_version,
            ),
        );
    }
    if !text::is_text(&report, &approval.evaluation_report_id) {
        let observed = text_or_none(&report);
        return Err(
            approval_mismatch(
                skill_id,
                "evaluation_report_id",
                &approval.evaluation_report_id,
                &observed,
            ),
        );
    }
    insert_approval(store, skill_id, "phase4_canary", approval, created_at)
}

/// How many stored approvals say what `record` says.
pub open spec fn exact_approvals(rows: Seq<ApprovalModel>, record: ApprovalModel) -> nat
    decreases rows.len(),
{
    if rows.len() == 0 {
        0
    } else {
        exact_approvals(rows.drop_last(), record) + if same_binding(rows.last(), record) {
            1nat
        } else {
            0nat
        }
    }
}

/// The outcome of a stored root activation under the same key: the transition and
/// exactly one approval must be the same.
pub open spec fn replayed_activation(
    s: StoreModel,
    key: Seq<char>,
    skill_id: Seq<char>,
    approval: HumanApproval,
    snapshot: SnapshotModel,
) -> Option<Result<TransitionOutcomeModel, LifecycleFault>> {
    match s.transition(key) {
        None => None,
        Some(t) => Some(
            if t.skill_id != skill_id || t.from_status != "canary"@ || t.to_status != "active"@
                || t.evidence_snapshot != snapshot.json() || exact_approvals(
                s.approvals,
                approval_record(skill_id, "phase5_root_activation"@, approval, 0),
            ) != 1 {
                Err(LifecycleFault::IdempotencyConflict)
            } else {
                Ok(
                    TransitionOutcomeModel {
                        transition_id: t.transition_id,
                        skill_id: t.skill_id,
                        status: LifecycleStatus::Active,
                        row_version: t.row_version_to,
                        desired_generation: t.desired_generation,
                        replayed: true,
                    },
                )
            },
        ),
    }
}

fn count_exact_approvals(store: &SkillStore, row: &ApprovalRow) -> (r: usize)
    ensures
        r == exact_approvals(store@.approvals, row@),
{
    let mut count: usize = 0;
    let mut i: usize = 0;
    proof {
        assert(store@.approvals.take(0).len() == 0);
    }
    while i < store.approvals.len()
        invariant
            i <= store.approvals@.len(),
            count <= i,
            count == exact_approvals(store@.approvals.take(i as int), row@),
        decreases store.approvals@.len() - i,
    {
        let existing = &store.approvals[i];
        proof {
            assert(store@.approvals[i as int] == existing@);
            assert(store@.approvals.take(i + 1).drop_last() =~= store@.approvals.take(i as int));
            assert(store@.approvals.take(i + 1).last() == existing@);
        }
        if text::same(&existing.approval_id, &row.approval_id) && text::same(
            &existing.skill_id,
            &row.skill_id,
        ) && text::same(&existing.approval_kind, &row.approval_kind) && text::same(
            &existing.actor_id,
            &row.actor_id,
        ) && existing.artifact_row_version == row.artifact_row_version && text::same(
            &existing.evaluation_report_id,
            &row.evaluation_report_id,
        ) {
            count = count + 1;
        }
        i = i + 1;
    }
    assert(store@.approvals.take(store@.approvals.len() as int) =~= store@.approvals);
    count
}

pub fn read_idempotent_root_transition(
    store: &SkillStore,
    request: &TransitionRequest,
    approval: &HumanApproval,
) -> (r: Result<Option<TransitionOutcome>, LifecycleError>)
    requires
        request.snapshot@.fault() is None,
        request.from_status == LifecycleStatus::Canary,
        request.to_status == LifecycleStatus::Active,
    ensures
        ({
            let replay = replayed_activation(
                store@,
                request.idempotency_key@,
                request.skill_id@,
                *approval,
                request.snapshot@,
            );
            match r {
                Ok(None) => replay is None,
                Ok(Some(outcome)) => replay == Some(Ok::<_, LifecycleFault>(outcome@)),
                Err(e) => replay == Some(Err::<TransitionOutcomeModel, _>(e@)),
            }
        }),
{
    match read_idempotent_transition(store, request) {
        Err(e) => Err(e),
        Ok(None) => Ok(None),
        Ok(Some(outcome)) => {
            let row = make_approval_row(
                &request.skill_id,
                "phase5_root_activation",
                approval,
                0,
            );
            if count_exact_approvals(store, &row) != 1 {
                return Err(LifecycleError::IdempotencyConflict);
            }
            Ok(Some(outcome))
        },
    }
}

/// A `Result` of the approval store by its contents.
pub open spec fn consumption(consumed: Result<(), StoreError>) -> Option<StoreFault> {
    match consumed {
        Ok(()) => None,
        Err(e) => Some(e@),
    }
}

/// What is wrong with a root activation before the store is read.
pub open spec fn activation_request_fault(
    key: Seq<char>,
    skill_id: Seq<char>,
    approval: HumanApproval,
    authorization: ApprovalAuthorization,
    m: SnapshotModel,
) -> Option<LifecycleFault> {
    if !approval.well_formed() {
        Some(LifecycleFault::InvalidHumanApproval)
    } else if !authorization.spec_binds(approval.approval_id@, approval.actor_id@) {
        Some(LifecycleFault::Store(StoreFault::Unauthorized))
    } else if key.len() == 0 || m.artifact_id != skill_id || m.predecessor_id is Some
        || m.predecessor_row_version is Some || m.artifact_row_version
        != approval.expected_row_version {
        Some(LifecycleFault::EvidenceMismatch)
    } else {
        m.fault()
    }
}

/// What the store holds against a new root activation before its authority is consumed.
pub open spec fn activation_ground_fault(
    s: StoreModel,
    skill_id: Seq<char>,
    approval: HumanApproval,
    m: SnapshotModel,
) -> Option<LifecycleFault> {
    if s.revision(skill_id) is None {
        Some(LifecycleFault::Store(StoreFault::NotFound(skill_id)))
    } else if s.policy(m.policy_version) is None {
        Some(LifecycleFault::UnknownPolicyVersion(m.policy_version))
    } else if !snapshot_evidence_holds(s, m, false, None) {
        Some(LifecycleFault::UnknownEvidence)
    } else {
        match revision_state(s, skill_id) {
            Err(f) => Some(f),
            Ok(revision) => if revision.supersedes_id is Some || revision.lineage_root_id
                != revision.id {
                Some(LifecycleFault::NotLineageRoot)
            } else if revision.status != LifecycleStatus::Canary {
                Some(mismatch(skill_id, "status"@, "canary"@, revision.status.token()))
            } else if revision.row_version != approval.expected_row_version {
                Some(
                    mismatch(
                        skill_id,
                        "row_version"@,
                        text::signed_decimal(approval.expected_row_version as int),
                        text::signed_decimal(revision.row_version as int),
                    ),
                )
            } else if stored_report(s, skill_id) != Some(approval.evaluation_report_id@) {
                Some(
                    mismatch(
                        skill_id,
                        "evaluation_report_id"@,
                        approval.evaluation_report_id@,
                        or_none(stored_report(s, skill_id)),
                    ),
                )
            } else if first_approval(s, skill_id) is None || first_approval(s, skill_id)->0
                == approval.approval_id@ {
                Some(
                    mismatch(
                        skill_id,
                        "first_approval"@,
                        "a distinct earlier phase4_canary approval"@,
                        or_none(first_approval(s, skill_id)),
                    ),
                )
            } else {
                None
            },
        }
    }
}

/// What a root activation comes to before its authority is consumed: a refusal, the
/// outcome of an activation that was made before, or nothing yet.
pub open spec fn activation_ground(
    s: StoreModel,
    key: Seq<char>,
    skill_id: Seq<char>,
    approval: HumanApproval,
    authorization: ApprovalAuthorization,
    m: SnapshotModel,
) -> Result<Option<TransitionOutcomeModel>, LifecycleFault> {
    if activation_request_fault(key, skill_id, approval, authorization, m) is Some {
        Err(activation_request_fault(key, skill_id, approval, authorization, m)->0)
    } else {
        match replayed_activation(s, key, skill_id, approval, m) {
            Some(Ok(outcome)) => Ok(Some(outcome)),
            Some(Err(f)) => Err(f),
            None => match activation_ground_fault(s, skill_id, approval, m) {
                Some(f) => Err(f),
                None => Ok(None),
            },
        }
    }
}

/// What stands against a root activation from the consumption of its authority on.
pub open spec fn activation_fault(
    s: StoreModel,
    skill_id: Seq<char>,
    approval: HumanApproval,
    m: SnapshotModel,
    consumed: Option<StoreFault>,
    created_at: i64,
) -> Option<LifecycleFault> {
    let record = approval_record(skill_id, "phase5_root_activation"@, approval, created_at);
    if consumed is Some {
        Some(LifecycleFault::Store(consumed->0))
    } else if approval_fault(s, record) is Some {
        approval_fault(s, record)
    } else if s.desired_generation != m.index_generation {
        Some(
            LifecycleFault::StaleGeneration {
                expected: m.index_generation,
                actual: s.desired_generation,
            },
        )
    } else {
        None
    }
}

/// What a root activation comes to: its outcome and the store after it.
pub open spec fn activation_result(
    s: StoreModel,
    key: Seq<char>,
    skill_id: Seq<char>,
    approval: HumanApproval,
    authorization: ApprovalAuthorization,
    m: SnapshotModel,
    consumed: Option<StoreFault>,
    created_at: i64,
) -> Result<(TransitionOutcomeModel, StoreModel), LifecycleFault> {
    match activation_ground(s, key, skill_id, approval, authorization, m) {
        Err(f) => Err(f),
        Ok(Some(outcome)) => Ok((outcome, s)),
        Ok(None) => match activation_fault(s, skill_id, approval, m, consumed, created_at) {
            Some(f) => Err(f),
            None => {
                let at = s.revision_at(skill_id)->0;
                let row_version = s.revisions[at].row_version;
                Ok(
                    (
                        TransitionOutcomeModel {
                            transition_id: s.next_transition_id,
                            skill_id,
                            status: LifecycleStatus::Active,
                            row_version: (row_version + 1) as i64,
                            desired_generation: (s.desired_generation + 1) as i64,
                            replayed: false,
                        },
                        with_transition(
                            with_approval(
                                s,
                                approval_record(
                                    skill_id,
                                    "phase5_root_activation"@,
                                    approval,
                                    created_at,
                                ),
                            ),
                            at,
                            LifecycleStatus::Active,
                            TransitionModel {
                                transition_id: s.next_transition_id,
                                idempotency_key: key,
                                skill_id,
                                predecessor_id: None,
                                from_status: "canary"@,
                                to_status: "active"@,
                                reason: "second_authenticated_root_activation"@,
                                evidence_snapshot: m.json(),
                                policy_version: m.policy_version,
                                row_version_from: row_version,
                                row_version_to: (row_version + 1) as i64,
                                desired_generation: (s.desired_generation + 1) as i64,
                                created_at,
                            },
                            created_at,
                        ),
                    ),
                )
            },
        },
    }
}

fn copy_snapshot(snapshot: &EvidenceSnapshot) -> (r: EvidenceSnapshot)
    ensures
        r@ == snapshot@,
{
    let mut inputs: Vec<PolicyInput> = Vec::new();
    let mut i: usize = 0;
    while i < snapshot.policy_inputs.len()
        invariant
            i <= snapshot.policy_inputs@.len(),
            policy_input_views(inputs@) =~= policy_input_views(snapshot.policy_inputs@).take(
                i as int,
            ),
        decreases snapshot.policy_inputs@.len() - i,
    {
        let ghost before = policy_input_views(inputs@);
        let item = PolicyInput {
            name: snapshot.policy_inputs[i].name.clone(),
            json: snapshot.policy_inputs[i].json.clone(),
        };
        assert(item@ == policy_input_views(snapshot.policy_inputs@)[i as int]);
        inputs.push(item);
        assert(policy_input_views(inputs@) =~= before.push(item@));
        i = i + 1;
    }
    assert(policy_input_views(snapshot.policy_inputs@).take(snapshot.policy_inputs@.len() as int)
        =~= policy_input_views(snapshot.policy_inputs@));
    EvidenceSnapshot {
        schema_version: snapshot.schema_version,
        artifact_id: snapshot.artifact_id.clone(),
        predecessor_id: text::clone_opt(&snapshot.predecessor_id),
        policy_version: snapshot.policy_version.clone(),
        evidence_ids: text::clone_strings(&snapshot.evidence_ids),
        policy_inputs: inputs,
        artifact_row_version: snapshot.artifact_row_version,
        predecessor_row_version: snapshot.predecessor_row_version,
        index_generation: snapshot.index_generation,
    }
}

/// Checks a root activation up to the consumption of its authority. An activation that
/// was made before has its outcome already.
fn prepare_activation(
    store: &SkillStore,
    idempotency_key: &str,
    skill_id: &str,
    approval: &HumanApproval,
    authorization: &ApprovalAuthorization,
    snapshot: &EvidenceSnapshot,
) -> (r: Result<Option<TransitionOutcome>, LifecycleError>)
    requires
        approval.expected_row_version < i64::MAX,
    ensures
        match activation_ground(
            store@,
            idempotency_key@,
            skill_id@,
            *approval,
            *authorization,
            snapshot@,
        ) {
            Err(f) => r is Err && r->Err_0@ == f,
            Ok(None) => r matches Ok(None),
            Ok(Some(outcome)) => r matches Ok(Some(replayed)) && replayed@ == outcome,
        },
{
    match validate_human_approval(approval) {
        Ok(()) => {},
        Err(e) => {
            return Err(e);
        },
    }
    if !authorization.binds_approval(&approval.approval_id, &approval.actor_id) {
        return Err(LifecycleError::Store(StoreError::Unauthorized));
    }
    if idempotency_key.is_empty() || !text::same(&snapshot.artifact_id, skill_id)
        || snapshot.predecessor_id.is_some() || snapshot.predecessor_row_version.is_some()
        || snapshot.artifact_row_version != approval.expected_row_version {
        return Err(LifecycleError::EvidenceMismatch);
    }
    match snapshot.validate() {
        Ok(()) => {},
        Err(e) => {
            return Err(e);
        },
    }
    let request = TransitionRequest {
        idempotency_key: idempotency_key.to_owned(),
        skill_id: skill_id.to_owned(),
        from_status: LifecycleStatus::Canary,
        to_status: LifecycleStatus::Active,
        expected_row_version: approval.expected_row_version,
        reason: "second_authenticated_root_activation".to_owned(),
        snapshot: copy_snapshot(snapshot),
    };
    match read_idempotent_root_transition(store, &request, approval) {
        Ok(Some(replayed)) => {
            return Ok(Some(replayed));
        },
        Ok(None) => {},
        Err(e) => {
            return Err(e);
        },
    }
    match store.find_revision(skill_id) {
        Some(_) => {},
        None => {
            return Err(LifecycleError::Store(StoreError::NotFound(skill_id.to_owned())));
        },
    }
    match ensure_policy_exists(store, &snapshot.policy_version) {
        Ok(()) => {},
        Err(e) => {
            return Err(e);
        },
    }
    match ensure_snapshot_evidence(store, snapshot, false, None) {
        Ok(()) => {},
        Err(e) => {
            return Err(e);
        },
    }
    let revision = match read_revision(store, skill_id) {
        Ok(revision) => revision,
        Err(e) => {
            return Err(e);
        },
    };
    if revision.supersedes_id.is_some() || !text::same(&revision.lineage_root_id, &revision.id) {
        return Err(LifecycleError::NotLineageRoot);
    }
    if revision.status != LifecycleStatus::Canary {
        return Err(
            approval_mismatch(skill_id, "status", "canary", revision.status.as_token()),
        );
    }
    if revision.row_version != approval.expected_row_version {
        return Err(
            version_mismatch(
                skill_id,
                "row_version",
                approval.expected_row_version,
                revision.row_version,
            ),
        );
    }
    let report = read_report(store, skill_id);
    if !text::is_text(&report, &approval.evaluation_report_id) {
        let observed = text_or_none(&report);
        return Err(
            approval_mismatch(
                skill_id,
                "evaluation_report_id",
                &approval.evaluation_report_id,
                &observed,
            ),
        );
    }
    let first = read_first_approval(store, skill_id);
    if first.is_none() || text::is_text(&first, &approval.approval_id) {
        let observed = text_or_none(&first);
        return Err(
            approval_mismatch(
                skill_id,
                "first_approval",
                "a distinct earlier phase4_canary approval",
                &observed,
            ),
        );
    }
    Ok(None)
}

/// Activates a lineage-root canary after a distinct second authenticated human
/// action. No predecessor or non-inferiority evidence is fabricated.
///
/// `consumed` is what the approval store answered to [`LifecycleService::root_consumption`]; it is
/// looked at only once every earlier check has passed.
pub fn activate_root_in(
    store: &mut SkillStore,
    idempotency_key: &str,
    skill_id: &str,
    approval: &HumanApproval,
    authorization: &ApprovalAuthorization,
    snapshot: &EvidenceSnapshot,
    consumed: &Result<(), StoreError>,
    created_at: i64,
) -> (r: Result<TransitionOutcome, LifecycleError>)
    requires
        approval.expected_row_version < i64::MAX,
        old(store).desired_generation < i64::MAX,
        old(store).next_transition_id < i64::MAX,
    ensures
        concludes(
            activation_result(
                old(store)@,
                idempotency_key@,
                skill_id@,
                *approval,
                *authorization,
                snapshot@,
                consumption(*consumed),
                created_at,
            ),
            old(store)@,
            r,
            |v: TransitionOutcome| v@,
            final(store)@,
        ),
{
    match prepare_activation(
        store,
        idempotency_key,
        skill_id,
        approval,
        authorization,
        snapshot,
    ) {
        Ok(Some(replayed)) => {
            return Ok(replayed);
        },
        Ok(None) => {},
        Err(e) => {
            return Err(e);
        },
    }
    let (at, revision) = match (store.find_revision(skill_id), read_revision(store, skill_id)) {
        (Some(at), Ok(revision)) => (at, revision),
        (_, Err(e)) => {
            return Err(e);
        },
        (None, _) => {
            return Err(LifecycleError::Store(StoreError::NotFound(skill_id.to_owned())));
        },
    };
    match consumed {
        Ok(()) => {},
        Err(e) => {
            return Err(LifecycleError::Store(e.copy()));
        },
    }
    let row = make_approval_row(skill_id, "phase5_root_activation", approval, created_at);
    match check_approval(store, &row) {
        Ok(()) => {},
        Err(e) => {
            return Err(e);
        },
    }
    if store.desired_generation != snapshot.index_generation {
        return Err(
            LifecycleError::StaleGeneration {
                expected: snapshot.index_generation,
                actual: store.desired_generation,
            },
        );
    }
    let evidence_snapshot = match snapshot.canonical_json() {
        Ok(encoded) => encoded,
        Err(e) => {
            return Err(e);
        },
    };
    let next_generation: i64 = store.desired_generation + 1;
    let next_row_version: i64 = revision.row_version + 1;
    record_approval(store, row);
    let kept = text::clone_opt(&store.revisions[at].superseded_by_id);
    store.update_revision(at, "active", next_row_version, kept, created_at);
    store.set_desired_generation(next_generation, created_at);
    let transition_id = store.append_transition(
        TransitionRow {
            transition_id: 0,
            idempotency_key: idempotency_key.to_owned(),
            skill_id: skill_id.to_owned(),
            predecessor_id: None,
            from_status: "canary".to_owned(),
            to_status: "active".to_owned(),
            reason: "second_authenticated_root_activation".to_owned(),
            evidence_snapshot,
            policy_version: snapshot.policy_version.clone(),
            row_version_from: revision.row_version,
            row_version_to: next_row_version,
            desired_generation: next_generation,
            created_at,
        },
    );
    Ok(
        TransitionOutcome {
            transition_id,
            skill_id: skill_id.to_owned(),
            status: LifecycleStatus::Active,
            row_version: next_row_version,
            desired_generation: next_generation,
            replayed: false,
        },
    )
}

/// What is wrong with a replacement request by itself.
pub open spec fn pair_request_fault(request: ReplacementTransitionRequest) -> Option<
    LifecycleFault,
> {
    let m = request.snapshot@;
    if request.idempotency_key@.len() == 0 || request.reason@.len() == 0 || m.evidence_ids.len()
        == 0 || m.policy_inputs.len() == 0 || m.artifact_id != request.candidate_id@
        || m.predecessor_id != Some(request.predecessor_id@) || m.artifact_row_version
        != request.candidate_row_version || m.predecessor_row_version != Some(
        request.predecessor_row_version,
    ) {
        Some(LifecycleFault::EvidenceMismatch)
    } else {
        m.fault()
    }
}

/// The two status moves of a replacement.
pub struct PairMove {
    pub candidate_from: LifecycleStatus,
    pub candidate_to: LifecycleStatus,
    pub predecessor_from: LifecycleStatus,
    pub predecessor_to: LifecycleStatus,
}

impl PairMove {
    /// The candidate takes the place of its predecessor.
    pub open spec fn promoting(self) -> bool {
        self.candidate_to == LifecycleStatus::Active && self.predecessor_to
            == LifecycleStatus::Superseded
    }
}

/// The transition row of the candidate side.
pub open spec fn candidate_record(
    request: ReplacementTransitionRequest,
    moves: PairMove,
    transition_id: i64,
    desired_generation: i64,
    created_at: i64,
) -> TransitionModel {
    TransitionModel {
        transition_id,
        idempotency_key: request.idempotency_key@ + ":candidate"@,
        skill_id: request.candidate_id@,
        predecessor_id: Some(request.predecessor_id@),
        from_status: moves.candidate_from.token(),
        to_status: moves.candidate_to.token(),
        reason: request.reason@,
        evidence_snapshot: request.snapshot@.json(),
        policy_version: request.snapshot@.policy_version,
        row_version_from: request.candidate_row_version,
        row_version_to: (request.candidate_row_version + 1) as i64,
        desired_generation,
        created_at,
    }
}

/// The transition row of the predecessor side.
pub open spec fn predecessor_record(
    request: ReplacementTransitionRequest,
    moves: PairMove,
    transition_id: i64,
    desired_generation: i64,
    created_at: i64,
) -> TransitionModel {
    TransitionModel {
        transition_id,
        idempotency_key: request.idempotency_key@ + ":predecessor"@,
        skill_id: request.predecessor_id@,
        predecessor_id: Some(request.predecessor_id@),
        from_status: moves.predecessor_from.token(),
        to_status: moves.predecessor_to.token(),
        reason: request.reason@,
        evidence_snapshot: request.snapshot@.json(),
        policy_version: request.snapshot@.policy_version,
        row_version_from: request.predecessor_row_version,
        row_version_to: (request.predecessor_row_version + 1) as i64,
        desired_generation,
        created_at,
    }
}

/// Two transition rows record the same move.
pub open spec fn same_record(a: TransitionModel, b: TransitionModel) -> bool {
    a == (TransitionModel { transition_id: a.transition_id, created_at: a.created_at, ..b })
}

/// Two transition rows record the same move up to the row version it reached.
pub open spec fn same_record_from(b: TransitionModel) -> spec_fn(TransitionModel) -> bool {
    |a: TransitionModel| same_record(a, TransitionModel { row_version_to: a.row_version_to, ..b })
}

/// The outcome of a stored replacement under the same key: both rows must be the
/// same, and a conflict is reported otherwise.
pub open spec fn replayed_pair(
    s: StoreModel,
    request: ReplacementTransitionRequest,
    moves: PairMove,
) -> Option<Result<ReplacementTransitionOutcome, LifecycleFault>> {
    match s.transition(request.idempotency_key@ + ":candidate"@) {
        None => None,
        Some(t) => {
            let candidate = candidate_record(request, moves, 0, t.desired_generation, 0);
            let predecessor = predecessor_record(request, moves, 0, t.desired_generation, 0);
            let candidate_exact = exists|i: int|
                0 <= i < s.transitions.len() && same_record(
                    #[trigger] s.transitions[i],
                    candidate,
                );
            let reached = match crate::store::position(
                s.transitions,
                same_record_from(predecessor),
            ) {
                Some(i) => Some(s.transitions[i].row_version_to),
                None => None,
            };
            Some(
                if t.to_status != moves.candidate_to.token() || !candidate_exact || reached != Some(
                    (request.predecessor_row_version + 1) as i64,
                ) {
                    Err(LifecycleFault::IdempotencyConflict)
                } else {
                    Ok(
                        ReplacementTransitionOutcome {
                            candidate_status: moves.candidate_to,
                            predecessor_status: moves.predecessor_to,
                            candidate_row_version: t.row_version_to,
                            predecessor_row_version: (request.predecessor_row_version + 1) as i64,
                            desired_generation: t.desired_generation,
                            replayed: true,
                        },
                    )
                },
            )
        },
    }
}

/// The kind of evidence that a promotion must rest on. An explicit operator
/// promotion never satisfies, and is never satisfied by, qualified evidence.
pub open spec fn required_kind(promoting: bool, authority: PromotionAuthority) -> Option<
    Seq<char>,
> {
    if !promoting {
        None
    } else {
        match authority {
            PromotionAuthority::EvidenceThreshold { .. } => Some("qualified"@),
            PromotionAuthority::LocalOwner { .. } => Some("operator_promotion"@),
        }
    }
}

/// What an explicit local-owner promotion lacks before its authority is consumed.
pub open spec fn local_owner_ground_fault(
    s: StoreModel,
    request: ReplacementTransitionRequest,
    approval: HumanApproval,
    authorization: ApprovalAuthorization,
    candidate_row_version: i64,
) -> Option<LifecycleFault> {
    let id = request.candidate_id@;
    if !approval.well_formed() {
        Some(LifecycleFault::InvalidHumanApproval)
    } else if !authorization.spec_binds(approval.approval_id@, approval.actor_id@) {
        Some(LifecycleFault::Store(StoreFault::Unauthorized))
    } else if approval.expected_row_version != request.candidate_row_version {
        Some(
            mismatch(
                id,
                "requested_row_version"@,
                text::signed_decimal(request.candidate_row_version as int),
                text::signed_decimal(approval.expected_row_version as int),
            ),
        )
    } else if candidate_row_version != approval.expected_row_version {
        Some(
            mismatch(
                id,
                "row_version"@,
                text::signed_decimal(approval.expected_row_version as int),
                text::signed_decimal(candidate_row_version as int),
            ),
        )
    } else if stored_report(s, id) != Some(approval.evaluation_report_id@) {
        Some(
            mismatch(
                id,
                "evaluation_report_id"@,
                approval.evaluation_report_id@,
                or_none(stored_report(s, id)),
            ),
        )
    } else if first_approval(s, id) is None || first_approval(s, id)->0 == approval.approval_id@ {
        Some(
            mismatch(
                id,
                "first_approval"@,
                "a distinct earlier phase4_canary approval"@,
                or_none(first_approval(s, id)),
            ),
        )
    } else if s.revision(id) is None {
        Some(LifecycleFault::Store(StoreFault::NotFound(id)))
    } else {
        None
    }
}

/// What an explicit local-owner promotion lacks.
pub open spec fn local_owner_fault(
    s: StoreModel,
    request: ReplacementTransitionRequest,
    approval: HumanApproval,
    authorization: ApprovalAuthorization,
    consumed: Option<StoreFault>,
    candidate_row_version: i64,
    created_at: i64,
) -> Option<LifecycleFault> {
    let ground = local_owner_ground_fault(
        s,
        request,
        approval,
        authorization,
        candidate_row_version,
    );
    if ground is Some {
        ground
    } else if consumed is Some {
        Some(LifecycleFault::Store(consumed->0))
    } else {
        approval_fault(
            s,
            approval_record(
                request.candidate_id@,
                "phase5_operator_promotion"@,
                approval,
                created_at,
            ),
        )
    }
}

/// What the authority behind a promotion lacks.
pub open spec fn authority_fault(
    s: StoreModel,
    request: ReplacementTransitionRequest,
    authority: PromotionAuthority,
    candidate_row_version: i64,
    created_at: i64,
) -> Option<LifecycleFault> {
    match authority {
        PromotionAuthority::EvidenceThreshold { held } => match held {
            Some(reasons) => Some(LifecycleFault::PromotionHeld(reasons@)),
            None => None,
        },
        PromotionAuthority::LocalOwner { approval, authorization, consumed } => local_owner_fault(
            s,
            request,
            *approval,
            *authorization,
            consumption(consumed),
            candidate_row_version,
            created_at,
        ),
    }
}

/// What the store holds against a new replacement before its authority is looked at.
pub open spec fn pair_ground_fault(
    s: StoreModel,
    request: ReplacementTransitionRequest,
    moves: PairMove,
    authority: PromotionAuthority,
) -> Option<LifecycleFault> {
    let m = request.snapshot@;
    if s.policy(m.policy_version) is None {
        Some(LifecycleFault::UnknownPolicyVersion(m.policy_version))
    } else if !snapshot_evidence_holds(s, m, true, required_kind(moves.promoting(), authority)) {
        Some(LifecycleFault::UnknownEvidence)
    } else {
        match (
            revision_state(s, request.candidate_id@),
            revision_state(s, request.predecessor_id@),
        ) {
            (Err(f), _) => Some(f),
            (_, Err(f)) => Some(f),
            (Ok(candidate), Ok(predecessor)) => if candidate.status != moves.candidate_from {
                Some(
                    LifecycleFault::IllegalTransition {
                        role: "candidate"@,
                        skill_id: candidate.id,
                        from: candidate.status,
                        to: moves.candidate_to,
                    },
                )
            } else if predecessor.status != moves.predecessor_from {
                Some(
                    LifecycleFault::IllegalTransition {
                        role: "predecessor"@,
                        skill_id: predecessor.id,
                        from: predecessor.status,
                        to: moves.predecessor_to,
                    },
                )
            } else if candidate.row_version != request.candidate_row_version {
                Some(
                    LifecycleFault::StaleRowVersion {
                        skill_id: candidate.id,
                        expected: request.candidate_row_version,
                        actual: candidate.row_version,
                    },
                )
            } else if predecessor.row_version != request.predecessor_row_version {
                Some(
                    LifecycleFault::StaleRowVersion {
                        skill_id: predecessor.id,
                        expected: request.predecessor_row_version,
                        actual: predecessor.row_version,
                    },
                )
            } else if candidate.supersedes_id != Some(predecessor.id) || candidate.lineage_root_id
                != predecessor.lineage_root_id {
                Some(LifecycleFault::LineageFork)
            } else if lineage_fault(s.revisions, candidate, moves.candidate_to) is Some {
                lineage_fault(s.revisions, candidate, moves.candidate_to)
            } else if s.desired_generation != m.index_generation {
                Some(
                    LifecycleFault::StaleGeneration {
                        expected: m.index_generation,
                        actual: s.desired_generation,
                    },
                )
            } else {
                None
            },
        }
    }
}

/// What a replacement comes to before its authority is looked at: a refusal, the
/// outcome of a replacement that was made before, or nothing yet.
pub open spec fn pair_ground(
    s: StoreModel,
    request: ReplacementTransitionRequest,
    moves: PairMove,
    authority: PromotionAuthority,
) -> Result<Option<ReplacementTransitionOutcome>, LifecycleFault> {
    if pair_request_fault(request) is Some {
        Err(pair_request_fault(request)->0)
    } else {
        match replayed_pair(s, request, moves) {
            Some(Ok(outcome)) => Ok(Some(outcome)),
            Some(Err(f)) => Err(f),
            None => match pair_ground_fault(s, request, moves, authority) {
                Some(f) => Err(f),
                None => Ok(None),
            },
        }
    }
}

/// What the authority behind a replacement lacks, where one is needed.
pub open spec fn pair_fault(
    s: StoreModel,
    request: ReplacementTransitionRequest,
    moves: PairMove,
    authority: PromotionAuthority,
    created_at: i64,
) -> Option<LifecycleFault> {
    if moves.promoting() {
        authority_fault(s, request, authority, request.candidate_row_version, created_at)
    } else {
        None
    }
}

/// The store with a replacement applied.
pub open spec fn with_pair(
    s: StoreModel,
    request: ReplacementTransitionRequest,
    moves: PairMove,
    authority: PromotionAuthority,
    created_at: i64,
) -> StoreModel {
    let recorded = match authority {
        PromotionAuthority::LocalOwner { approval, .. } if moves.promoting() => with_approval(
            s,
            approval_record(
                request.candidate_id@,
                "phase5_operator_promotion"@,
                *approval,
                created_at,
            ),
        ),
        _ => s,
    };
    let c = s.revision_at(request.candidate_id@)->0;
    let p = s.revision_at(request.predecessor_id@)->0;
    let rows = s.revisions.update(
        c,
        RevisionModel {
            status: moves.candidate_to.token(),
            row_version: (s.revisions[c].row_version + 1) as i64,
            superseded_by_id: None,
            updated_at: created_at,
            ..s.revisions[c]
        },
    );
    let generation = (s.desired_generation + 1) as i64;
    StoreModel {
        revisions: rows.update(
            p,
            RevisionModel {
                status: moves.predecessor_to.token(),
                row_version: (s.revisions[p].row_version + 1) as i64,
                superseded_by_id: if moves.predecessor_to == LifecycleStatus::Superseded {
                    Some(request.candidate_id@)
                } else {
                    None
                },
                updated_at: created_at,
                ..rows[p]
            },
        ),
        transitions: s.transitions.push(
            candidate_record(request, moves, s.next_transition_id, generation, created_at),
        ).push(
            predecessor_record(
                request,
                moves,
                (s.next_transition_id + 1) as i64,
                generation,
                created_at,
            ),
        ),
        next_transition_id: (s.next_transition_id + 2) as i64,
        desired_generation: generation,
        generation_updated_at: created_at,
        ..recorded
    }
}

/// What a replacement comes to: its outcome and the store after it.
pub open spec fn pair_result(
    s: StoreModel,
    request: ReplacementTransitionRequest,
    moves: PairMove,
    authority: PromotionAuthority,
    created_at: i64,
) -> Result<(ReplacementTransitionOutcome, StoreModel), LifecycleFault> {
    match pair_ground(s, request, moves, authority) {
        Err(f) => Err(f),
        Ok(Some(outcome)) => Ok((outcome, s)),
        Ok(None) => match pair_fault(s, request, moves, authority, created_at) {
            Some(f) => Err(f),
            None => Ok(
                (
                    ReplacementTransitionOutcome {
                        candidate_status: moves.candidate_to,
                        predecessor_status: moves.predecessor_to,
                        candidate_row_version: (request.candidate_row_version + 1) as i64,
                        predecessor_row_version: (request.predecessor_row_version + 1) as i64,
                        desired_generation: (s.desired_generation + 1) as i64,
                        replayed: false,
                    },
                    with_pair(s, request, moves, authority, created_at),
                ),
            ),
        },
    }
}

fn make_transition_row(
    suffix: &str,
    skill_id: &str,
    from: LifecycleStatus,
    to: LifecycleStatus,
    row_version_from: i64,
    request: &ReplacementTransitionRequest,
    evidence_snapshot: &str,
    desired_generation: i64,
    created_at: i64,
) -> (r: TransitionRow)
    requires
        row_version_from < i64::MAX,
        evidence_snapshot@ == request.snapshot@.json(),
    ensures
        r@ == (TransitionModel {
            transition_id: 0,
            idempotency_key: request.idempotency_key@ + suffix@,
            skill_id: skill_id@,
            predecessor_id: Some(request.predecessor_id@),
            from_status: from.token(),
            to_status: to.token(),
            reason: request.reason@,
            evidence_snapshot: request.snapshot@.json(),
            policy_version: request.snapshot@.policy_version,
            row_version_from,
            row_version_to: (row_version_from + 1) as i64,
            desired_generation,
            created_at,
        }),
{
    TransitionRow {
        transition_id: 0,
        idempotency_key: text::join2(&request.idempotency_key, suffix),
        skill_id: skill_id.to_owned(),
        predecessor_id: Some(request.predecessor_id.clone()),
        from_status: from.as_token().to_owned(),
        to_status: to.as_token().to_owned(),
        reason: request.reason.clone(),
        evidence_snapshot: evidence_snapshot.to_owned(),
        policy_version: request.snapshot.policy_version.clone(),
        row_version_from,
        row_version_to: row_version_from + 1,
        desired_generation,
        created_at,
    }
}

/// Compares two transition rows up to their number, time and reached row version.
fn record_starts_same(a: &TransitionRow, b: &TransitionRow) -> (r: bool)
    ensures
        r == same_record(a@, TransitionModel { row_version_to: a.row_version_to, ..b@ }),
{
    text::same(&a.idempotency_key, &b.idempotency_key) && text::same(&a.skill_id, &b.skill_id)
        && text::same_opt(&a.predecessor_id, &b.predecessor_id) && text::same(
        &a.from_status,
        &b.from_status,
    ) && text::same(&a.to_status, &b.to_status) && text::same(&a.reason, &b.reason) && text::same(
        &a.evidence_snapshot,
        &b.evidence_snapshot,
    ) && text::same(&a.policy_version, &b.policy_version) && a.row_version_from
        == b.row_version_from && a.desired_generation == b.desired_generation
}

fn has_record(store: &SkillStore, row: &TransitionRow) -> (r: bool)
    ensures
        r == (exists|i: int|
            0 <= i < store@.transitions.len() && same_record(
                #[trigger] store@.transitions[i],
                row@,
            )),
{
    let mut i: usize = 0;
    while i < store.transitions.len()
        invariant
            i <= store.transitions@.len(),
            forall|j: int| 0 <= j < i ==> !same_record(#[trigger] store@.transitions[j], row@),
        decreases store.transitions@.len() - i,
    {
        assert(store@.transitions[i as int] == store.transitions@[i as int]@);
        if record_starts_same(&store.transitions[i], row) && store.transitions[i].row_version_to
            == row.row_version_to {
            assert(same_record(store@.transitions[i as int], row@));
            return true;
        }
        i = i + 1;
    }
    false
}

fn reached_version(store: &SkillStore, row: &TransitionRow) -> (r: Option<i64>)
    ensures
        r == match crate::store::position(store@.transitions, same_record_from(row@)) {
            Some(i) => Some(store@.transitions[i].row_version_to),
            None => None,
        },
{
    let ghost p = same_record_from(row@);
    let mut i: usize = 0;
    while i < store.transitions.len()
        invariant
            i <= store.transitions@.len(),
            p == same_record_from(row@),
            forall|j: int| 0 <= j < i ==> !p(#[trigger] store@.transitions[j]),
        decreases store.transitions@.len() - i,
    {
        assert(store@.transitions[i as int] == store.transitions@[i as int]@);
        if record_starts_same(&store.transitions[i], row) {
            proof {
                crate::store::lemma_position_found(store@.transitions, p, i as int);
            }
            return Some(store.transitions[i].row_version_to);
        }
        i = i + 1;
    }
    proof {
        crate::store::lemma_position_missing(store@.transitions, p);
    }
    None
}

/// Looks a stored replacement up under the same key.
fn read_replayed_pair(
    store: &SkillStore,
    request: &ReplacementTransitionRequest,
    moves: &PairMove,
    canonical: &str,
) -> (r: Result<Option<ReplacementTransitionOutcome>, LifecycleError>)
    requires
        canonical@ == request.snapshot@.json(),
        request.candidate_row_version < i64::MAX,
        request.predecessor_row_version < i64::MAX,
    ensures
        match r {
            Ok(None) => replayed_pair(store@, *request, *moves) is None,
            Ok(Some(outcome)) => replayed_pair(store@, *request, *moves) == Some(
                Ok::<_, LifecycleFault>(outcome),
            ),
            Err(e) => replayed_pair(store@, *request, *moves) == Some(
                Err::<ReplacementTransitionOutcome, _>(e@),
            ),
        },
{
    let key = text::join2(&request.idempotency_key, ":candidate");
    match store.find_transition(&key) {
        None => Ok(None),
        Some(i) => {
            let existing = &store.transitions[i];
            assert(store@.transitions[i as int] == existing@);
            let generation: i64 = existing.desired_generation;
            let candidate = make_transition_row(
                ":candidate",
                &request.candidate_id,
                moves.candidate_from,
                moves.candidate_to,
                request.candidate_row_version,
                request,
                canonical,
                generation,
                0,
            );
            let predecessor = make_transition_row(
                ":predecessor",
                &request.predecessor_id,
                moves.predecessor_from,
                moves.predecessor_to,
                request.predecessor_row_version,
                request,
                canonical,
                generation,
                0,
            );
            assert(candidate@ == candidate_record(*request, *moves, 0, generation, 0));
            assert(predecessor@ == predecessor_record(*request, *moves, 0, generation, 0));
            let next: i64 = request.predecessor_row_version + 1;
            let exact = has_record(store, &candidate);
            let reached_next = match reached_version(store, &predecessor) {
                Some(version) => version == next,
                None => false,
            };
            if !text::same(&existing.to_status, moves.candidate_to.as_token()) || !exact
                || !reached_next {
                return Err(LifecycleError::IdempotencyConflict);
            }
            Ok(
                Some(
                    ReplacementTransitionOutcome {
                        candidate_status: moves.candidate_to,
                        predecessor_status: moves.predecessor_to,
                        candidate_row_version: existing.row_version_to,
                        predecessor_row_version: next,
                        desired_generation: generation,
                        replayed: true,
                    },
                ),
            )
        },
    }
}

/// Checks an explicit local-owner promotion up to the consumption of its authority.
fn check_local_owner(
    store: &SkillStore,
    request: &ReplacementTransitionRequest,
    approval: &HumanApproval,
    authorization: &ApprovalAuthorization,
    candidate_row_version: i64,
) -> (r: Result<(), LifecycleError>)
    ensures
        ({
            let fault = local_owner_ground_fault(
                store@,
                *request,
                *approval,
                *authorization,
                candidate_row_version,
            );
            match r {
                Ok(()) => fault is None,
                Err(e) => fault == Some(e@),
            }
        }),
{
    match validate_human_approval(approval) {
        Ok(()) => {},
        Err(e) => {
            return Err(e);
        },
    }
    if !authorization.binds_approval(&approval.approval_id, &approval.actor_id) {
        return Err(LifecycleError::Store(StoreError::Unauthorized));
    }
    if approval.expected_row_version != request.candidate_row_version {
        return Err(
            version_mismatch(
                &request.candidate_id,
                "requested_row_version",
                request.candidate_row_version,
                approval.expected_row_version,
            ),
        );
    }
    if candidate_row_version != approval.expected_row_version {
        return Err(
            version_mismatch(
                &request.candidate_id,
                "row_version",
                approval.expected_row_version,
                candidate_row_version,
            ),
        );
    }
    let report = read_report(store, &request.candidate_id);
    if !text::is_text(&report, &approval.evaluation_report_id) {
        let observed = text_or_none(&report);
        return Err(
            approval_mismatch(
                &request.candidate_id,
                "evaluation_report_id",
                &approval.evaluation_report_id,
                &observed,
            ),
        );
    }
    let first = read_first_approval(store, &request.candidate_id);
    if first.is_none() || text::is_text(&first, &approval.approval_id) {
        let observed = text_or_none(&first);
        return Err(
            approval_mismatch(
                &request.candidate_id,
                "first_approval",
                "a distinct earlier phase4_canary approval",
                &observed,
            ),
        );
    }
    match store.find_revision(&request.candidate_id) {
        Some(_) => {},
        None => {
            return Err(LifecycleError::Store(StoreError::NotFound(request.candidate_id.clone())));
        },
    }
    Ok(())
}

/// Revalidates an explicit local-owner promotion: the approval must be bound to
/// the exact candidate row and its evaluation report, a first and distinct
/// local-owner approval must already exist for the canary, and the authority must
/// have been consumed.
pub fn authorize_local_owner_promotion(
    store: &SkillStore,
    request: &ReplacementTransitionRequest,
    approval: &HumanApproval,
    authorization: &ApprovalAuthorization,
    consumed: &Result<(), StoreError>,
    candidate_row_version: i64,
    created_at: i64,
) -> (r: Result<(), LifecycleError>)
    ensures
        ({
            let fault = local_owner_fault(
                store@,
                *request,
                *approval,
                *authorization,
                consumption(*consumed),
                candidate_row_version,
                created_at,
            );
            match r {
                Ok(()) => fault is None,
                Err(e) => fault == Some(e@),
            }
        }),
{
    match check_local_owner(store, request, approval, authorization, candidate_row_version) {
        Ok(()) => {},
        Err(e) => {
            return Err(e);
        },
    }
    match consumed {
        Ok(()) => {},
        Err(e) => {
            return Err(LifecycleError::Store(e.copy()));
        },
    }
    let row = make_approval_row(
        &request.candidate_id,
        "phase5_operator_promotion",
        approval,
        created_at,
    );
    check_approval(store, &row)
}

/// Checks a replacement up to its authority. A replacement that was made before has its
/// outcome already.
fn prepare_pair(
    store: &SkillStore,
    request: &ReplacementTransitionRequest,
    moves: &PairMove,
    authority: &PromotionAuthority,
) -> (r: Result<Option<ReplacementTransitionOutcome>, LifecycleError>)
    requires
        request.candidate_row_version < i64::MAX,
        request.predecessor_row_version < i64::MAX,
    ensures
        match pair_ground(store@, *request, *moves, *authority) {
            Err(f) => r is Err && r->Err_0@ == f,
            Ok(ground) => r == Ok::<_, LifecycleError>(ground),
        },
{
    if request.idempotency_key.as_str().is_empty() || request.reason.as_str().is_empty()
        || request.snapshot.evidence_ids.len() == 0 || request.snapshot.policy_inputs.len() == 0
        || !text::same(&request.snapshot.artifact_id, &request.candidate_id) || !text::is_text(
        &request.snapshot.predecessor_id,
        &request.predecessor_id,
    ) || request.snapshot.artifact_row_version != request.candidate_row_version
        || request.snapshot.predecessor_row_version.is_none()
        || request.snapshot.predecessor_row_version.unwrap() != request.predecessor_row_version {
        return Err(LifecycleError::EvidenceMismatch);
    }
    let canonical = match request.snapshot.canonical_json() {
        Ok(canonical) => canonical,
        Err(e) => {
            return Err(e);
        },
    };
    match read_replayed_pair(store, request, moves, &canonical) {
        Ok(Some(replayed)) => {
            return Ok(Some(replayed));
        },
        Ok(None) => {},
        Err(e) => {
            return Err(e);
        },
    }
    match ensure_policy_exists(store, &request.snapshot.policy_version) {
        Ok(()) => {},
        Err(e) => {
            return Err(e);
        },
    }
    let promoting = moves.candidate_to == LifecycleStatus::Active && moves.predecessor_to
        == LifecycleStatus::Superseded;
    let kind: Option<&'static str> = if promoting {
        match authority {
            PromotionAuthority::EvidenceThreshold { .. } => Some("qualified"),
            PromotionAuthority::LocalOwner { .. } => Some("operator_promotion"),
        }
    } else {
        None
    };
    match ensure_snapshot_evidence(store, &request.snapshot, true, kind) {
        Ok(()) => {},
        Err(e) => {
            return Err(e);
        },
    }
    let candidate = match read_revision(store, &request.candidate_id) {
        Ok(candidate) => candidate,
        Err(e) => {
            return Err(e);
        },
    };
    let predecessor = match read_revision(store, &request.predecessor_id) {
        Ok(predecessor) => predecessor,
        Err(e) => {
            return Err(e);
        },
    };
    if candidate.status != moves.candidate_from {
        return Err(
            LifecycleError::IllegalTransition {
                role: "candidate",
                skill_id: candidate.id,
                from: candidate.status,
                to: moves.candidate_to,
            },
        );
    }
    if predecessor.status != moves.predecessor_from {
        return Err(
            LifecycleError::IllegalTransition {
                role: "predecessor",
                skill_id: predecessor.id,
                from: predecessor.status,
                to: moves.predecessor_to,
            },
        );
    }
    if candidate.row_version != request.candidate_row_version {
        return Err(
            LifecycleError::StaleRowVersion {
                skill_id: candidate.id,
                expected: request.candidate_row_version,
                actual: candidate.row_version,
            },
        );
    }
    if predecessor.row_version != request.predecessor_row_version {
        return Err(
            LifecycleError::StaleRowVersion {
                skill_id: predecessor.id,
                expected: request.predecessor_row_version,
                actual: predecessor.row_version,
            },
        );
    }
    if !text::is_text(&candidate.supersedes_id, &predecessor.id) || !text::same(
        &candidate.lineage_root_id,
        &predecessor.lineage_root_id,
    ) {
        return Err(LifecycleError::LineageFork);
    }
    match validate_lineage(store, &candidate, moves.candidate_to) {
        Ok(()) => {},
        Err(e) => {
            return Err(e);
        },
    }
    if store.desired_generation != request.snapshot.index_generation {
        return Err(
            LifecycleError::StaleGeneration {
                expected: request.snapshot.index_generation,
                actual: store.desired_generation,
            },
        );
    }
    Ok(None)
}

/// Moves a candidate and its predecessor together.
pub fn replace_pair_in(
    store: &mut SkillStore,
    request: &ReplacementTransitionRequest,
    moves: PairMove,
    authority: &PromotionAuthority,
    created_at: i64,
) -> (r: Result<ReplacementTransitionOutcome, LifecycleError>)
    requires
        request.candidate_row_version < i64::MAX,
        request.predecessor_row_version < i64::MAX,
        old(store).desired_generation < i64::MAX,
        old(store).next_transition_id + 1 < i64::MAX,
    ensures
        concludes(
            pair_result(old(store)@, *request, moves, *authority, created_at),
            old(store)@,
            r,
            |v: ReplacementTransitionOutcome| v,
            final(store)@,
        ),
{
    match prepare_pair(store, request, &moves, authority) {
        Ok(Some(replayed)) => {
            return Ok(replayed);
        },
        Ok(None) => {},
        Err(e) => {
            return Err(e);
        },
    }
    let canonical = match request.snapshot.canonical_json() {
        Ok(canonical) => canonical,
        Err(e) => {
            return Err(e);
        },
    };
    let promoting = moves.candidate_to == LifecycleStatus::Active && moves.predecessor_to
        == LifecycleStatus::Superseded;
    let (c, p) = match (
        store.find_revision(&request.candidate_id),
        store.find_revision(&request.predecessor_id),
    ) {
        (Some(c), Some(p)) => (c, p),
        _ => {
            return Err(LifecycleError::Store(StoreError::NotFound(request.candidate_id.clone())));
        },
    };
    proof {
        assert(crate::store::first_match(
            store@.revisions,
            crate::store::revision_has_id(request.candidate_id@),
            c as int,
        ));
    }
    let ghost before = store@;
    if promoting {
        match authority {
            PromotionAuthority::EvidenceThreshold { held } => {
                if let Some(reasons) = held {
                    return Err(LifecycleError::PromotionHeld(reasons.clone()));
                }
            },
            PromotionAuthority::LocalOwner { approval, authorization, consumed } => {
                match authorize_local_owner_promotion(
                    store,
                    request,
                    approval,
                    authorization,
                    consumed,
                    request.candidate_row_version,
                    created_at,
                ) {
                    Ok(()) => {},
                    Err(e) => {
                        return Err(e);
                    },
                }
                let row = make_approval_row(
                    &request.candidate_id,
                    "phase5_operator_promotion",
                    approval,
                    created_at,
                );
                record_approval(store, row);
            },
        }
    }
    let next_generation: i64 = store.desired_generation + 1;
    let candidate_next: i64 = request.candidate_row_version + 1;
    let predecessor_next: i64 = request.predecessor_row_version + 1;
    store.update_revision(c, moves.candidate_to.as_token(), candidate_next, None, created_at);
    assert(store@.revisions.len() == before.revisions.len());
    let superseded_by_id = if moves.predecessor_to == LifecycleStatus::Superseded {
        Some(request.candidate_id.clone())
    } else {
        None
    };
    store.update_revision(
        p,
        moves.predecessor_to.as_token(),
        predecessor_next,
        superseded_by_id,
        created_at,
    );
    store.set_desired_generation(next_generation, created_at);
    let candidate_row = make_transition_row(
        ":candidate",
        &request.candidate_id,
        moves.candidate_from,
        moves.candidate_to,
        request.candidate_row_version,
        request,
        &canonical,
        next_generation,
        created_at,
    );
    let first_id = store.append_transition(candidate_row);
    let predecessor_row = make_transition_row(
        ":predecessor",
        &request.predecessor_id,
        moves.predecessor_from,
        moves.predecessor_to,
        request.predecessor_row_version,
        request,
        &canonical,
        next_generation,
        created_at,
    );
    let second_id = store.append_transition(predecessor_row);
    proof {
        assert(store@ == with_pair(before, *request, moves, *authority, created_at));
    }
    Ok(
        ReplacementTransitionOutcome {
            candidate_status: moves.candidate_to,
            predecessor_status: moves.predecessor_to,
            candidate_row_version: candidate_next,
            predecessor_row_version: predecessor_next,
            desired_generation: next_generation,
            replayed: false,
        },
    )
}

/// A promotion by the local owner comes to the consumption of its authority.
pub open spec fn promotion_consumes(
    s: StoreModel,
    request: ReplacementTransitionRequest,
    approval: HumanApproval,
    authorization: ApprovalAuthorization,
    predecessor_from: LifecycleStatus,
) -> bool {
    let authority = PromotionAuthority::LocalOwner {
        approval: &approval,
        authorization: &authorization,
        consumed: Ok(()),
    };
    &&& predecessor_from == LifecycleStatus::Active || predecessor_from
        == LifecycleStatus::Quarantined
    &&& pair_ground(s, request, promotion_from(predecessor_from), authority) == Ok::<
        Option<ReplacementTransitionOutcome>,
        LifecycleFault,
    >(None)
    &&& local_owner_ground_fault(
        s,
        request,
        approval,
        authorization,
        request.candidate_row_version,
    ) is None
}

/// What registering a policy comes to: nothing new where the version is registered
/// with the same document, a conflict where it is registered with another.
pub open spec fn register_policy_result(
    s: StoreModel,
    version: Seq<char>,
    canonical: Seq<char>,
    created_at: i64,
) -> Result<StoreModel, LifecycleFault> {
    match s.policy(version) {
        None => Ok(
            StoreModel {
                policies: s.policies.push(
                    PolicyModel { policy_version: version, policy_json: canonical, created_at },
                ),
                ..s
            },
        ),
        Some(existing) => if existing.policy_json == canonical {
            Ok(s)
        } else {
            Err(LifecycleFault::IdempotencyConflict)
        },
    }
}

/// Registers the compact form of a policy document under a version.
pub fn register_canonical_policy(
    store: &mut SkillStore,
    policy_version: &str,
    canonical: &str,
    created_at: i64,
) -> (r: Result<(), LifecycleError>)
    ensures
        match register_policy_result(old(store)@, policy_version@, canonical@, created_at) {
            Ok(next) => r is Ok && final(store)@ == next,
            Err(f) => r is Err && r->Err_0@ == f && final(store)@ == old(store)@,
        },
{
    match store.find_policy(policy_version) {
        None => {
            store.append_policy(
                PolicyRow {
                    policy_version: policy_version.to_owned(),
                    policy_json: canonical.to_owned(),
                    created_at,
                },
            );
            Ok(())
        },
        Some(i) => {
            assert(store@.policies[i as int] == store.policies@[i as int]@);
            if text::same(&store.policies[i].policy_json, canonical) {
                Ok(())
            } else {
                Err(LifecycleError::IdempotencyConflict)
            }
        },
    }
}

/// Registers a policy version. A re-registration of the same document changes
/// nothing; a conflicting one is refused.
pub fn register_policy_in_tx(
    store: &mut SkillStore,
    policy_version: &str,
    policy_json: &str,
    created_at: i64,
) -> (r: Result<(), LifecycleError>)
    ensures
        match json::json_canonical(policy_json@) {
            None => r is Err && r->Err_0@ is Json && final(store)@ == old(store)@,
            Some(canonical) => match register_policy_result(
                old(store)@,
                policy_version@,
                canonical,
                created_at,
            ) {
                Ok(next) => r is Ok && final(store)@ == next,
                Err(f) => r is Err && r->Err_0@ == f && final(store)@ == old(store)@,
            },
        },
{
    match json::canonicalize_json(policy_json) {
        Err(e) => Err(LifecycleError::Json(e)),
        Ok(canonical) => register_canonical_policy(store, policy_version, &canonical, created_at),
    }
}

/// The store with one piece of operator promotion evidence; an id that is already
/// stored keeps its row.
pub open spec fn with_operator_evidence(
    s: StoreModel,
    evidence_id: Seq<char>,
    skill_id: Seq<char>,
    policy_version: Seq<char>,
    canonical: Seq<char>,
    created_at: i64,
) -> StoreModel {
    if crate::store::position(s.evidence, crate::store::evidence_has_id(evidence_id)) is Some {
        s
    } else {
        StoreModel {
            evidence: s.evidence.push(
                EvidenceModel {
                    evidence_id,
                    skill_id,
                    evidence_kind: "operator_promotion"@,
                    payload_json: canonical,
                    policy_version,
                    created_at,
                },
            ),
            ..s
        }
    }
}

/// Records the compact form of an operator's promotion evidence.
pub fn record_canonical_evidence(
    store: &mut SkillStore,
    evidence_id: &str,
    skill_id: &str,
    policy_version: &str,
    canonical: &str,
    created_at: i64,
)
    ensures
        final(store)@ == with_operator_evidence(
            old(store)@,
            evidence_id@,
            skill_id@,
            policy_version@,
            canonical@,
            created_at,
        ),
{
    if !store.has_evidence(evidence_id) {
        store.append_evidence(
            EvidenceRow {
                evidence_id: evidence_id.to_owned(),
                skill_id: skill_id.to_owned(),
                evidence_kind: "operator_promotion".to_owned(),
                payload_json: canonical.to_owned(),
                policy_version: policy_version.to_owned(),
                created_at,
            },
        );
    }
}

/// Sole low-level service allowed to mutate lifecycle state.
pub struct LifecycleService<'a> {
    pub store: &'a mut SkillStore,
}

impl<'a> LifecycleService<'a> {
    /// The store that the service works on.
    pub open spec fn stored(&self) -> SkillStore {
        *self.store
    }

    pub fn new(store: &'a mut SkillStore) -> (r: LifecycleService<'a>)
        ensures
            *r.store == *old(store),
            *final(r.store) == *final(store),
    {
        LifecycleService { store }
    }

    /// Reads one revision.
    pub fn revision(&self, skill_id: &str) -> (r: Result<RevisionState, LifecycleError>)
        ensures
            match r {
                Ok(state) => revision_state(self.stored()@, skill_id@) == Ok::<_, LifecycleFault>(
                    state@,
                ),
                Err(e) => revision_state(self.stored()@, skill_id@) == Err::<RevisionStateModel, _>(
                    e@,
                ),
            },
    {
        read_revision(&*self.store, skill_id)
    }

    /// The desired and the applied index generation.
    pub fn index_generations(&self) -> (r: (i64, i64))
        ensures
            r == (self.stored().desired_generation, self.stored().applied_generation),
    {
        (self.store.desired_generation, self.store.applied_generation)
    }

    /// What to ask of the approval store for a root activation by the local owner.
    /// `manifest_digest` is what that store derived from the skill's manifest.
    pub fn authorize_root_local_owner(
        &self,
        skill_id: &str,
        approval: &HumanApproval,
        manifest_digest: Result<String, StoreError>,
        issued_at: i64,
    ) -> (r: Result<ApprovalAuthorizationRequest, LifecycleError>)
        ensures
            authorization_request_follows(
                self.stored()@,
                skill_id@,
                *approval,
                manifest_digest,
                issued_at,
                r,
            ),
    {
        self.authorize_local_owner(skill_id, approval, manifest_digest, issued_at)
    }

    /// What to ask of the approval store for a replacement promotion by the local
    /// owner. `manifest_digest` is what that store derived from the skill's manifest.
    pub fn authorize_replacement_local_owner(
        &self,
        skill_id: &str,
        approval: &HumanApproval,
        manifest_digest: Result<String, StoreError>,
        issued_at: i64,
    ) -> (r: Result<ApprovalAuthorizationRequest, LifecycleError>)
        ensures
            authorization_request_follows(
                self.stored()@,
                skill_id@,
                *approval,
                manifest_digest,
                issued_at,
                r,
            ),
    {
        self.authorize_local_owner(skill_id, approval, manifest_digest, issued_at)
    }

    fn authorize_local_owner(
        &self,
        skill_id: &str,
        approval: &HumanApproval,
        manifest_digest: Result<String, StoreError>,
        issued_at: i64,
    ) -> (r: Result<ApprovalAuthorizationRequest, LifecycleError>)
        ensures
            authorization_request_follows(
                self.stored()@,
                skill_id@,
                *approval,
                manifest_digest,
                issued_at,
                r,
            ),
    {
        match validate_human_approval(approval) {
            Ok(()) => {},
            Err(e) => {
                return Err(e);
            },
        }
        match self.store.find_revision(skill_id) {
            Some(_) => {},
            None => {
                return Err(LifecycleError::Store(StoreError::NotFound(skill_id.to_owned())));
            },
        }
        if issued_at > i64::MAX - APPROVAL_AUTHORIZATION_LIFETIME_SECONDS {
            return Err(LifecycleError::InvalidHumanApproval);
        }
        let manifest_digest = match manifest_digest {
            Ok(digest) => digest,
            Err(e) => {
                return Err(LifecycleError::Store(e));
            },
        };
        Ok(
            ApprovalAuthorizationRequest {
                authorization_id: approval.approval_id.clone(),
                principal: approval.actor_id.clone(),
                artifact_id: skill_id.to_owned(),
                report_id: approval.evaluation_report_id.clone(),
                manifest_digest,
                transition: ApprovalTransition::CanaryToActive,
                issued_at,
                expires_at: issued_at + APPROVAL_AUTHORIZATION_LIFETIME_SECONDS,
            },
        )
    }

    /// Registers a policy version.
    pub fn register_policy(
        &mut self,
        policy_version: &str,
        policy_json: &str,
        created_at: i64,
    ) -> (r: Result<(), LifecycleError>)
        ensures
            *final(final(self).store) == *final(old(self).store),
            match json::json_canonical(policy_json@) {
                None => r is Err && r->Err_0@ is Json && final(self).store@ == old(self).store@,
                Some(canonical) => match register_policy_result(
                    old(self).store@,
                    policy_version@,
                    canonical,
                    created_at,
                ) {
                    Ok(next) => r is Ok && final(self).store@ == next,
                    Err(f) => r is Err && r->Err_0@ == f && final(self).store@ == old(self).store@,
                },
            },
    {
        register_policy_in_tx(self.store, policy_version, policy_json, created_at)
    }

    /// Records the operator's own promotion evidence, under a kind of its own.
    pub fn record_operator_promotion_evidence(
        &mut self,
        evidence_id: &str,
        skill_id: &str,
        policy_version: &str,
        payload_json: &str,
        created_at: i64,
    ) -> (r: Result<(), LifecycleError>)
        ensures
            *final(final(self).store) == *final(old(self).store),
            match json::json_canonical(payload_json@) {
                None => r is Err && r->Err_0@ is Json && final(self).store@ == old(self).store@,
                Some(canonical) => r is Ok && final(self).store@ == with_operator_evidence(
                    old(self).store@,
                    evidence_id@,
                    skill_id@,
                    policy_version@,
                    canonical,
                    created_at,
                ),
            },
    {
        match json::canonicalize_json(payload_json) {
            Err(e) => Err(LifecycleError::Json(e)),
            Ok(canonical) => {
                record_canonical_evidence(
                    self.store,
                    evidence_id,
                    skill_id,
                    policy_version,
                    &canonical,
                    created_at,
                );
                Ok(())
            },
        }
    }

    /// Applies one unprivileged transition.
    pub fn transition(&mut self, request: &TransitionRequest, created_at: i64) -> (r: Result<
        TransitionOutcome,
        LifecycleError,
    >)
        requires
            request.expected_row_version < i64::MAX,
            old(self).store.desired_generation < i64::MAX,
            old(self).store.next_transition_id < i64::MAX,
        ensures
            *final(final(self).store) == *final(old(self).store),
            concludes(
                transition_result(old(self).store@, *request, created_at),
                old(self).store@,
                r,
                |v: TransitionOutcome| v@,
                final(self).store@,
            ),
    {
        transition_in_tx(self.store, request, created_at)
    }

    /// Records the first authenticated approval of a root canary.
    pub fn record_root_canary_approval(
        &mut self,
        skill_id: &str,
        approval: &HumanApproval,
        created_at: i64,
    ) -> (r: Result<(), LifecycleError>)
        ensures
            *final(final(self).store) == *final(old(self).store),
            match r {
                Ok(()) => {
                    &&& root_canary_approval_fault(
                        old(self).store@,
                        skill_id@,
                        *approval,
                        created_at,
                    ) is None
                    &&& final(self).store@ == with_approval(
                        old(self).store@,
                        approval_record(skill_id@, "phase4_canary"@, *approval, created_at),
                    )
                },
                Err(e) => {
                    &&& root_canary_approval_fault(
                        old(self).store@,
                        skill_id@,
                        *approval,
                        created_at,
                    ) == Some(e@)
                    &&& final(self).store@ == old(self).store@
                },
            },
    {
        record_canary_approval(self.store, skill_id, approval, created_at)
    }

    /// What to ask of the approval store for a root activation, where that activation
    /// comes to the consumption of its authority.
    pub fn root_consumption(
        &self,
        idempotency_key: &str,
        skill_id: &str,
        approval: &HumanApproval,
        authorization: &ApprovalAuthorization,
        snapshot: &EvidenceSnapshot,
        created_at: i64,
    ) -> (r: Option<ConsumptionRequest>)
        requires
            approval.expected_row_version < i64::MAX,
        ensures
            r is Some == (activation_ground(
                self.stored()@,
                idempotency_key@,
                skill_id@,
                *approval,
                *authorization,
                snapshot@,
            ) == Ok::<Option<TransitionOutcomeModel>, LifecycleFault>(None)),
            r matches Some(request) ==> request.spends(
                skill_id@,
                *approval,
                *authorization,
                created_at,
            ),
    {
        match prepare_activation(
            &*self.store,
            idempotency_key,
            skill_id,
            approval,
            authorization,
            snapshot,
        ) {
            Ok(None) => Some(consumption_request(skill_id, approval, authorization, created_at)),
            _ => None,
        }
    }

    /// What to ask of the approval store for a promotion by the local owner, where that
    /// promotion comes to the consumption of its authority.
    pub fn promotion_consumption(
        &self,
        request: &ReplacementTransitionRequest,
        approval: &HumanApproval,
        authorization: &ApprovalAuthorization,
        predecessor_from: LifecycleStatus,
        created_at: i64,
    ) -> (r: Option<ConsumptionRequest>)
        requires
            request.candidate_row_version < i64::MAX,
            request.predecessor_row_version < i64::MAX,
        ensures
            r is Some == promotion_consumes(
                self.stored()@,
                *request,
                *approval,
                *authorization,
                predecessor_from,
            ),
            r matches Some(asked) ==> asked.spends(
                request.candidate_id@,
                *approval,
                *authorization,
                created_at,
            ),
    {
        match predecessor_from {
            LifecycleStatus::Active | LifecycleStatus::Quarantined => {},
            _ => {
                return None;
            },
        }
        let moves = PairMove {
            candidate_from: LifecycleStatus::Canary,
            candidate_to: LifecycleStatus::Active,
            predecessor_from,
            predecessor_to: LifecycleStatus::Superseded,
        };
        let authority = PromotionAuthority::LocalOwner { approval, authorization, consumed: Ok(()) };
        match prepare_pair(&*self.store, request, &moves, &authority) {
            Ok(None) => {},
            _ => {
                return None;
            },
        }
        match check_local_owner(
            &*self.store,
            request,
            approval,
            authorization,
            request.candidate_row_version,
        ) {
            Ok(()) => Some(
                consumption_request(&request.candidate_id, approval, authorization, created_at),
            ),
            Err(_) => None,
        }
    }

    /// Activates a lineage-root canary.
    pub fn activate_root(
        &mut self,
        idempotency_key: &str,
        skill_id: &str,
        approval: &HumanApproval,
        authorization: &ApprovalAuthorization,
        snapshot: &EvidenceSnapshot,
        consumed: &Result<(), StoreError>,
        created_at: i64,
    ) -> (r: Result<TransitionOutcome, LifecycleError>)
        requires
            approval.expected_row_version < i64::MAX,
            old(self).store.desired_generation < i64::MAX,
            old(self).store.next_transition_id < i64::MAX,
        ensures
            *final(final(self).store) == *final(old(self).store),
            concludes(
                activation_result(
                    old(self).store@,
                    idempotency_key@,
                    skill_id@,
                    *approval,
                    *authorization,
                    snapshot@,
                    consumption(*consumed),
                    created_at,
                ),
                old(self).store@,
                r,
                |v: TransitionOutcome| v@,
                final(self).store@,
            ),
    {
        activate_root_in(
            self.store,
            idempotency_key,
            skill_id,
            approval,
            authorization,
            snapshot,
            consumed,
            created_at,
        )
    }

    /// Promotes a replacement canary where the durable policy finds nothing against it on
    /// the evidence that is stored.
    pub fn promote_replacement(
        &mut self,
        request: &ReplacementTransitionRequest,
        stored: &StoredEvidence,
        rates: RateFindings,
        created_at: i64,
    ) -> (r: Result<ReplacementTransitionOutcome, LifecycleError>)
        requires
            pair_fits(*request, *old(self).store),
        ensures
            *final(final(self).store) == *final(old(self).store),
            exists|held: Option<String>| #[trigger]
                text::opt_view(held) == promotion::finding(
                    old(self).store@,
                    *request,
                    *stored,
                    rates,
                ) && concludes(
                    pair_result(
                        old(self).store@,
                        *request,
                        promotion_from(LifecycleStatus::Active),
                        PromotionAuthority::EvidenceThreshold { held },
                        created_at,
                    ),
                    old(self).store@,
                    r,
                    |v: ReplacementTransitionOutcome| v,
                    final(self).store@,
                ),
    {
        let held = promotion::find_hold(self.store, request, stored, rates);
        self.replace_pair(
            request,
            LifecycleStatus::Canary,
            LifecycleStatus::Active,
            LifecycleStatus::Active,
            LifecycleStatus::Superseded,
            PromotionAuthority::EvidenceThreshold { held },
            created_at,
        )
    }

    /// Promotes an approved replacement canary by explicit local-owner action.
    ///
    /// `predecessor_from` is `Active` (the ordinary replacement) or `Quarantined`
    /// (the emergency path). Every other predecessor state is refused.
    pub fn promote_replacement_by_local_owner(
        &mut self,
        request: &ReplacementTransitionRequest,
        approval: &HumanApproval,
        authorization: &ApprovalAuthorization,
        consumed: Result<(), StoreError>,
        predecessor_from: LifecycleStatus,
        created_at: i64,
    ) -> (r: Result<ReplacementTransitionOutcome, LifecycleError>)
        requires
            pair_fits(*request, *old(self).store),
        ensures
            *final(final(self).store) == *final(old(self).store),
            concludes(
                if predecessor_from == LifecycleStatus::Active || predecessor_from
                    == LifecycleStatus::Quarantined {
                    pair_result(
                        old(self).store@,
                        *request,
                        promotion_from(predecessor_from),
                        PromotionAuthority::LocalOwner { approval, authorization, consumed },
                        created_at,
                    )
                } else {
                    Err(
                        LifecycleFault::IllegalTransition {
                            role: "predecessor"@,
                            skill_id: request.predecessor_id@,
                            from: predecessor_from,
                            to: LifecycleStatus::Superseded,
                        },
                    )
                },
                old(self).store@,
                r,
                |v: ReplacementTransitionOutcome| v,
                final(self).store@,
            ),
    {
        match predecessor_from {
            LifecycleStatus::Active | LifecycleStatus::Quarantined => {},
            _ => {
                return Err(
                    LifecycleError::IllegalTransition {
                        role: "predecessor",
                        skill_id: request.predecessor_id.clone(),
                        from: predecessor_from,
                        to: LifecycleStatus::Superseded,
                    },
                );
            },
        }
        self.replace_pair(
            request,
            LifecycleStatus::Canary,
            LifecycleStatus::Active,
            predecessor_from,
            LifecycleStatus::Superseded,
            PromotionAuthority::LocalOwner { approval, authorization, consumed },
            created_at,
        )
    }

    /// Takes a promoted replacement back: the candidate is quarantined and its
    /// predecessor becomes active again.
    pub fn rollback_replacement(
        &mut self,
        request: &ReplacementTransitionRequest,
        created_at: i64,
    ) -> (r: Result<ReplacementTransitionOutcome, LifecycleError>)
        requires
            pair_fits(*request, *old(self).store),
        ensures
            *final(final(self).store) == *final(old(self).store),
            concludes(
                pair_result(
                    old(self).store@,
                    *request,
                    rollback_move(),
                    PromotionAuthority::EvidenceThreshold { held: None },
                    created_at,
                ),
                old(self).store@,
                r,
                |v: ReplacementTransitionOutcome| v,
                final(self).store@,
            ),
    {
        self.replace_pair(
            request,
            LifecycleStatus::Active,
            LifecycleStatus::Quarantined,
            LifecycleStatus::Superseded,
            LifecycleStatus::Active,
            PromotionAuthority::EvidenceThreshold { held: None },
            created_at,
        )
    }

    fn replace_pair(
        &mut self,
        request: &ReplacementTransitionRequest,
        candidate_from: LifecycleStatus,
        candidate_to: LifecycleStatus,
        predecessor_from: LifecycleStatus,
        predecessor_to: LifecycleStatus,
        authority: PromotionAuthority,
        created_at: i64,
    ) -> (r: Result<ReplacementTransitionOutcome, LifecycleError>)
        requires
            pair_fits(*request, *old(self).store),
        ensures
            *final(final(self).store) == *final(old(self).store),
            concludes(
                pair_result(
                    old(self).store@,
                    *request,
                    PairMove { candidate_from, candidate_to, predecessor_from, predecessor_to },
                    authority,
                    created_at,
                ),
                old(self).store@,
                r,
                |v: ReplacementTransitionOutcome| v,
                final(self).store@,
            ),
    {
        replace_pair_in(
            self.store,
            request,
            PairMove { candidate_from, candidate_to, predecessor_from, predecessor_to },
            &authority,
            created_at,
        )
    }
}

/// The counters that a replacement advances are below their limit.
pub open spec fn pair_fits(request: ReplacementTransitionRequest, store: SkillStore) -> bool {
    &&& request.candidate_row_version < i64::MAX
    &&& request.predecessor_row_version < i64::MAX
    &&& store.desired_generation < i64::MAX
    &&& store.next_transition_id + 1 < i64::MAX
}

/// A canary becomes active over a predecessor in the given status.
pub open spec fn promotion_from(predecessor_from: LifecycleStatus) -> PairMove {
    PairMove {
        candidate_from: LifecycleStatus::Canary,
        candidate_to: LifecycleStatus::Active,
        predecessor_from,
        predecessor_to: LifecycleStatus::Superseded,
    }
}

/// A promotion taken back.
pub open spec fn rollback_move() -> PairMove {
    PairMove {
        candidate_from: LifecycleStatus::Active,
        candidate_to: LifecycleStatus::Quarantined,
        predecessor_from: LifecycleStatus::Superseded,
        predecessor_to: LifecycleStatus::Active,
    }
}

/// An authority is asked for exactly where the approval is well formed, the skill
/// is stored, the lifetime fits the clock and the digest of its manifest was derived; it
/// is bound to the approval, the actor, the skill, the report, the digest and the step
/// of a canary to active.
pub open spec fn authorization_request_follows(
    s: StoreModel,
    skill_id: Seq<char>,
    approval: HumanApproval,
    manifest_digest: Result<String, StoreError>,
    issued_at: i64,
    r: Result<ApprovalAuthorizationRequest, LifecycleError>,
) -> bool {
    if !approval.well_formed() {
        r is Err && r->Err_0@ == LifecycleFault::InvalidHumanApproval
    } else if s.revision(skill_id) is None {
        r is Err && r->Err_0@ == LifecycleFault::Store(StoreFault::NotFound(skill_id))
    } else if issued_at + APPROVAL_AUTHORIZATION_LIFETIME_SECONDS > i64::MAX {
        r is Err && r->Err_0@ == LifecycleFault::InvalidHumanApproval
    } else if manifest_digest is Err {
        r is Err && r->Err_0@ == LifecycleFault::Store(manifest_digest->Err_0@)
    } else {
        &&& r is Ok
        &&& r->Ok_0.manifest_digest == manifest_digest->Ok_0
        &&& r->Ok_0.transition == ApprovalTransition::CanaryToActive
        &&& r->Ok_0.authorization_id == approval.approval_id
        &&& r->Ok_0.principal == approval.actor_id
        &&& r->Ok_0.artifact_id@ == skill_id
        &&& r->Ok_0.report_id == approval.evaluation_report_id
        &&& r->Ok_0.issued_at == issued_at
        &&& r->Ok_0.expires_at == issued_at + APPROVAL_AUTHORIZATION_LIFETIME_SECONDS
    }
}

proof fn lemma_appended_transition_is_found(s: Seq<TransitionModel>, row: TransitionModel)
    requires
        crate::store::position(s, crate::store::transition_has_key(row.idempotency_key)) is None,
    ensures
        crate::store::position(
            s.push(row),
            crate::store::transition_has_key(row.idempotency_key),
        ) == Some(s.len() as int),
{
    let p = crate::store::transition_has_key(row.idempotency_key);
    assert forall|j: int| 0 <= j < s.len() implies !p(#[trigger] s.push(row)[j]) by {
        if p(s[j]) {
            crate::store::lemma_some_match_is_found(s, p, j);
        }
    }
    crate::store::lemma_position_found(s.push(row), p, s.len() as int);
}

/// Sending an applied transition again gives the recorded outcome, marked as
/// replayed, and changes nothing.
pub proof fn law_transition_is_idempotent(
    s: StoreModel,
    request: TransitionRequest,
    created_at: i64,
    again_at: i64,
)
    requires
        transition_result(s, request, created_at) is Ok,
    ensures
        ({
            let (outcome, next) = transition_result(s, request, created_at)->Ok_0;
            transition_result(next, request, again_at) == Ok::<_, LifecycleFault>(
                (TransitionOutcomeModel { replayed: true, ..outcome }, next),
            )
        }),
{
    let (outcome, next) = transition_result(s, request, created_at)->Ok_0;
    if replayed_transition(s, request) is None {
        let row = next.transitions.last();
        assert(next.transitions =~= s.transitions.push(row));
        lemma_appended_transition_is_found(s.transitions, row);
    }
}

/// An applied transition follows the transition graph from the status that the
/// revision had, is never an admission, activation or supersession, and advances
/// the row version and the desired generation by one each.
pub proof fn law_transition_moves_one_step(
    s: StoreModel,
    request: TransitionRequest,
    created_at: i64,
)
    requires
        transition_result(s, request, created_at) is Ok,
        !transition_result(s, request, created_at)->Ok_0.0.replayed,
        s.desired_generation < i64::MAX,
        request.expected_row_version < i64::MAX,
    ensures
        ({
            let (outcome, next) = transition_result(s, request, created_at)->Ok_0;
            let at = s.revision_at(request.skill_id@)->0;
            &&& status_of(s.revisions[at].status) == Some(request.from_status)
            &&& next.revisions[at].status == request.to_status.token()
            &&& request.from_status.successors().contains(request.to_status)
            &&& request.to_status != LifecycleStatus::Canary
            &&& request.to_status != LifecycleStatus::Active
            &&& next.revisions[at].row_version == s.revisions[at].row_version + 1
            &&& next.desired_generation == s.desired_generation + 1
            &&& forall|i: int|
                0 <= i < s.revisions.len() && i != at ==> next.revisions[i] == s.revisions[i]
        }),
{
    let at = s.revision_at(request.skill_id@)->0;
    let p = crate::store::revision_has_id(request.skill_id@);
    assert(crate::store::first_match(s.revisions, p, at));
}

proof fn lemma_exact_approvals_absent(rows: Seq<ApprovalModel>, record: ApprovalModel)
    requires
        forall|i: int| 0 <= i < rows.len() ==> (#[trigger] rows[i]).approval_id != record.approval_id,
    ensures
        exact_approvals(rows, record) == 0,
    decreases rows.len(),
{
    if rows.len() > 0 {
        let init = rows.drop_last();
        assert forall|i: int| 0 <= i < init.len() implies (#[trigger] init[i]).approval_id
            != record.approval_id by {
            assert(init[i] == rows[i]);
        }
        lemma_exact_approvals_absent(init, record);
        assert(rows.last() == rows[rows.len() - 1]);
    }
}

proof fn lemma_exact_approvals_unique(rows: Seq<ApprovalModel>, record: ApprovalModel, at: int)
    requires
        0 <= at < rows.len(),
        same_binding(rows[at], record),
        approval_ids_are_unique(rows),
    ensures
        exact_approvals(rows, record) == 1,
    decreases rows.len(),
{
    let init = rows.drop_last();
    if at == rows.len() - 1 {
        assert forall|i: int| 0 <= i < init.len() implies (#[trigger] init[i]).approval_id
            != record.approval_id by {
            assert(init[i] == rows[i]);
            assert(rows[i].approval_id != rows[at].approval_id);
        }
        lemma_exact_approvals_absent(init, record);
    } else {
        assert forall|i: int, j: int| 0 <= i < j < init.len() implies (
        #[trigger] init[i]).approval_id != (#[trigger] init[j]).approval_id by {
            assert(rows[i].approval_id != rows[j].approval_id);
        }
        assert(init[at] == rows[at]);
        lemma_exact_approvals_unique(init, record, at);
        assert(rows[at].approval_id != rows[rows.len() - 1].approval_id);
    }
}

/// No approval id is stored twice.
pub open spec fn approval_ids_are_unique(rows: Seq<ApprovalModel>) -> bool {
    forall|i: int, j: int|
        0 <= i < j < rows.len() ==> (#[trigger] rows[i]).approval_id != (
        #[trigger] rows[j]).approval_id
}

/// Sending an applied root activation again gives the recorded outcome, marked as
/// replayed, and changes nothing, whatever the approval store answers then.
pub proof fn law_activation_is_idempotent(
    s: StoreModel,
    key: Seq<char>,
    skill_id: Seq<char>,
    approval: HumanApproval,
    authorization: ApprovalAuthorization,
    m: SnapshotModel,
    consumed: Option<StoreFault>,
    created_at: i64,
    consumed_again: Option<StoreFault>,
    again_at: i64,
)
    requires
        approval_ids_are_unique(s.approvals),
        activation_result(
            s,
            key,
            skill_id,
            approval,
            authorization,
            m,
            consumed,
            created_at,
        ) is Ok,
    ensures
        ({
            let (outcome, next) = activation_result(
                s,
                key,
                skill_id,
                approval,
                authorization,
                m,
                consumed,
                created_at,
            )->Ok_0;
            activation_result(
                next,
                key,
                skill_id,
                approval,
                authorization,
                m,
                consumed_again,
                again_at,
            ) == Ok::<_, LifecycleFault>(
                (TransitionOutcomeModel { replayed: true, ..outcome }, next),
            )
        }),
{
    let (outcome, next) = activation_result(
        s,
        key,
        skill_id,
        approval,
        authorization,
        m,
        consumed,
        created_at,
    )->Ok_0;
    if replayed_activation(s, key, skill_id, approval, m) is None {
        let row = next.transitions.last();
        assert(next.transitions =~= s.transitions.push(row));
        lemma_appended_transition_is_found(s.transitions, row);
        let record = approval_record(skill_id, "phase5_root_activation"@, approval, created_at);
        let bare = approval_record(skill_id, "phase5_root_activation"@, approval, 0);
        let p = crate::store::approval_has_id(record.approval_id);
        if s.approval(record.approval_id) is Some {
            let at = crate::store::position(s.approvals, p)->0;
            assert(crate::store::first_match(s.approvals, p, at));
            assert(next.approvals == s.approvals);
            assert(same_binding(s.approvals[at], record));
            assert(same_binding(s.approvals[at], bare));
            lemma_exact_approvals_unique(s.approvals, bare, at);
        } else {
            assert forall|i: int| 0 <= i < s.approvals.len() implies (
            #[trigger] s.approvals[i]).approval_id != bare.approval_id by {
                if s.approvals[i].approval_id == bare.approval_id {
                    crate::store::lemma_some_match_is_found(s.approvals, p, i);
                }
            }
            lemma_exact_approvals_absent(s.approvals, bare);
            assert(next.approvals == s.approvals.push(record));
            assert(next.approvals.drop_last() =~= s.approvals);
            assert(same_binding(record, bare));
        }
    }
}

/// An activated root was a canary without predecessor, its first approval is on
/// record and differs from the second, and the authority was consumed.
pub proof fn law_activation_needs_two_approvals(
    s: StoreModel,
    key: Seq<char>,
    skill_id: Seq<char>,
    approval: HumanApproval,
    authorization: ApprovalAuthorization,
    m: SnapshotModel,
    consumed: Option<StoreFault>,
    created_at: i64,
)
    requires
        activation_result(
            s,
            key,
            skill_id,
            approval,
            authorization,
            m,
            consumed,
            created_at,
        ) is Ok,
        !activation_result(
            s,
            key,
            skill_id,
            approval,
            authorization,
            m,
            consumed,
            created_at,
        )->Ok_0.0.replayed,
    ensures
        revision_state(s, skill_id) is Ok,
        revision_state(s, skill_id)->Ok_0.status == LifecycleStatus::Canary,
        revision_state(s, skill_id)->Ok_0.supersedes_id is None,
        first_approval(s, skill_id) is Some,
        first_approval(s, skill_id)->0 != approval.approval_id@,
        authorization.spec_binds(approval.approval_id@, approval.actor_id@),
        consumed is None,
{
}

/// An authority is consumed for just what it was issued for: the same skill, the same
/// report and the same step. The authority belongs to the approval and to its actor.
/// Where an activation or a promotion comes to its consumption, the report is the one
/// that is stored with the skill.
pub proof fn law_authorities_are_spent_as_issued(
    s: StoreModel,
    key: Seq<char>,
    skill_id: Seq<char>,
    approval: HumanApproval,
    manifest_digest: Result<String, StoreError>,
    issued_at: i64,
    issued: ApprovalAuthorizationRequest,
    later: StoreModel,
    authorization: ApprovalAuthorization,
    m: SnapshotModel,
    request: ReplacementTransitionRequest,
    predecessor_from: LifecycleStatus,
    asked: ConsumptionRequest,
    created_at: i64,
)
    requires
        authorization_request_follows(
            s,
            skill_id,
            approval,
            manifest_digest,
            issued_at,
            Ok(issued),
        ),
        authorization.authorization_id@ == issued.authorization_id@,
        authorization.principal@ == issued.principal@,
        asked.spends(skill_id, approval, authorization, created_at),
    ensures
        asked.authorization_id@ == issued.authorization_id@,
        asked.principal@ == issued.principal@,
        asked.artifact_id@ == issued.artifact_id@,
        asked.report_id@ == issued.report_id@,
        asked.transition == issued.transition,
        authorization.spec_binds(approval.approval_id@, approval.actor_id@),
        activation_ground(later, key, skill_id, approval, authorization, m) == Ok::<
            Option<TransitionOutcomeModel>,
            LifecycleFault,
        >(None) ==> stored_report(later, skill_id) == Some(asked.report_id@),
        request.candidate_id@ == skill_id && promotion_consumes(
            later,
            request,
            approval,
            authorization,
            predecessor_from,
        ) ==> stored_report(later, skill_id) == Some(asked.report_id@),
{
}

/// What the approval store answers decides a root activation exactly where it is asked:
/// there a refusal is passed on, and anywhere else no answer makes a difference.
pub proof fn law_activations_ask_where_the_answer_decides(
    s: StoreModel,
    key: Seq<char>,
    skill_id: Seq<char>,
    approval: HumanApproval,
    authorization: ApprovalAuthorization,
    m: SnapshotModel,
    refusal: StoreFault,
    consumed: Option<StoreFault>,
    created_at: i64,
)
    ensures
        if activation_ground(s, key, skill_id, approval, authorization, m) == Ok::<
            Option<TransitionOutcomeModel>,
            LifecycleFault,
        >(None) {
            activation_result(
                s,
                key,
                skill_id,
                approval,
                authorization,
                m,
                Some(refusal),
                created_at,
            ) == Err::<(TransitionOutcomeModel, StoreModel), LifecycleFault>(
                LifecycleFault::Store(refusal),
            )
        } else {
            activation_result(
                s,
                key,
                skill_id,
                approval,
                authorization,
                m,
                Some(refusal),
                created_at,
            ) == activation_result(
                s,
                key,
                skill_id,
                approval,
                authorization,
                m,
                consumed,
                created_at,
            )
        },
{
}

/// What the approval store answers decides a promotion by the local owner exactly where
/// it is asked: there a refusal is passed on, and anywhere else no answer makes a
/// difference.
pub proof fn law_promotions_ask_where_the_answer_decides(
    s: StoreModel,
    request: ReplacementTransitionRequest,
    approval: HumanApproval,
    authorization: ApprovalAuthorization,
    predecessor_from: LifecycleStatus,
    refusal: StoreError,
    consumed: Result<(), StoreError>,
    created_at: i64,
)
    requires
        predecessor_from == LifecycleStatus::Active || predecessor_from
            == LifecycleStatus::Quarantined,
    ensures
        ({
            let moves = promotion_from(predecessor_from);
            let refused = PromotionAuthority::LocalOwner {
                approval: &approval,
                authorization: &authorization,
                consumed: Err(refusal),
            };
            let answered = PromotionAuthority::LocalOwner {
                approval: &approval,
                authorization: &authorization,
                consumed,
            };
            if promotion_consumes(s, request, approval, authorization, predecessor_from) {
                pair_result(s, request, moves, refused, created_at) == Err::<
                    (ReplacementTransitionOutcome, StoreModel),
                    LifecycleFault,
                >(LifecycleFault::Store(refusal@))
            } else {
                pair_result(s, request, moves, refused, created_at) == pair_result(
                    s,
                    request,
                    moves,
                    answered,
                    created_at,
                )
            }
        }),
{
}

proof fn lemma_suffixes_differ(key: Seq<char>)
    ensures
        key + ":candidate"@ != key + ":predecessor"@,
{
    reveal_strlit(":candidate");
    reveal_strlit(":predecessor");
    assert((key + ":candidate"@).len() == key.len() + 10);
    assert((key + ":predecessor"@).len() == key.len() + 12);
}

/// Sending an applied replacement again gives the recorded outcome, marked as
/// replayed, and changes nothing, whatever the authority says then.
pub proof fn law_replacement_is_idempotent(
    s: StoreModel,
    request: ReplacementTransitionRequest,
    moves: PairMove,
    authority: PromotionAuthority,
    created_at: i64,
    authority_again: PromotionAuthority,
    again_at: i64,
)
    requires
        pair_result(s, request, moves, authority, created_at) is Ok,
        crate::store::position(
            s.transitions,
            crate::store::transition_has_key(request.idempotency_key@ + ":predecessor"@),
        ) is None || pair_result(s, request, moves, authority, created_at)->Ok_0.0.replayed,
    ensures
        ({
            let (outcome, next) = pair_result(s, request, moves, authority, created_at)->Ok_0;
            pair_result(next, request, moves, authority_again, again_at) == Ok::<
                _,
                LifecycleFault,
            >((ReplacementTransitionOutcome { replayed: true, ..outcome }, next))
        }),
{
    let (outcome, next) = pair_result(s, request, moves, authority, created_at)->Ok_0;
    if replayed_pair(s, request, moves) is None {
        let key = request.idempotency_key@;
        let generation = (s.desired_generation + 1) as i64;
        let first = candidate_record(request, moves, s.next_transition_id, generation, created_at);
        let second = predecessor_record(
            request,
            moves,
            (s.next_transition_id + 1) as i64,
            generation,
            created_at,
        );
        let n = s.transitions.len() as int;
        lemma_suffixes_differ(key);
        assert(next.transitions == s.transitions.push(first).push(second));
        // The candidate row is the first under its key.
        let p = crate::store::transition_has_key(key + ":candidate"@);
        lemma_appended_transition_is_found(s.transitions, first);
        assert(crate::store::first_match(s.transitions.push(first), p, n));
        assert forall|j: int| 0 <= j < n implies !p(#[trigger] next.transitions[j]) by {
            assert(next.transitions[j] == s.transitions.push(first)[j]);
        }
        crate::store::lemma_position_found(next.transitions, p, n);
        let wanted = candidate_record(request, moves, 0, generation, 0);
        assert(same_record(next.transitions[n], wanted));
        // The predecessor row is the first that records the other side.
        let wanted = predecessor_record(request, moves, 0, generation, 0);
        let q = same_record_from(wanted);
        let k = crate::store::transition_has_key(key + ":predecessor"@);
        assert forall|j: int| 0 <= j < n + 1 implies !q(#[trigger] next.transitions[j]) by {
            if j < n {
                if q(next.transitions[j]) {
                    assert(next.transitions[j] == s.transitions[j]);
                    assert(k(s.transitions[j]));
                    crate::store::lemma_some_match_is_found(s.transitions, k, j);
                }
            } else {
                assert(next.transitions[j] == first);
            }
        }
        assert(q(next.transitions[n + 1]));
        crate::store::lemma_position_found(next.transitions, q, n + 1);
    }
}

/// What the local owner records and what qualifies a skill are never taken for each other:
/// a promotion that is made on evidence names qualified evidence alone, and one that the
/// local owner makes names the owner's own alone.
pub proof fn law_kinds_of_evidence_are_kept_apart(
    s: StoreModel,
    request: ReplacementTransitionRequest,
    predecessor_from: LifecycleStatus,
    authority: PromotionAuthority,
    created_at: i64,
    id: Seq<char>,
)
    requires
        pair_result(
            s,
            request,
            promotion_from(predecessor_from),
            authority,
            created_at,
        ) matches Ok((outcome, _)) && !outcome.replayed,
        request.snapshot@.evidence_ids.contains(id),
    ensures
        ({
            let row = s.evidence_under(id, request.snapshot@.policy_version);
            &&& row is Some
            &&& row->0.evidence_kind == match authority {
                PromotionAuthority::EvidenceThreshold { .. } => "qualified"@,
                PromotionAuthority::LocalOwner { .. } => "operator_promotion"@,
            }
            &&& "qualified"@ != "operator_promotion"@
        }),
{
    reveal_strlit("qualified");
    reveal_strlit("operator_promotion");
    assert("qualified"@.len() != "operator_promotion"@.len());
    let m = request.snapshot@;
    let i = m.evidence_ids.index_of(id);
    assert(evidence_acceptable(
        s,
        m,
        m.evidence_ids[i],
        required_kind(true, authority),
    ));
}

/// A promotion leaves the candidate active and its predecessor superseded by it,
/// touches no other revision, and advances the generation by one.
pub proof fn law_promotion_moves_exactly_the_pair(
    s: StoreModel,
    request: ReplacementTransitionRequest,
    predecessor_from: LifecycleStatus,
    authority: PromotionAuthority,
    created_at: i64,
)
    requires
        s.desired_generation < i64::MAX,
        pair_result(s, request, promotion_from(predecessor_from), authority, created_at) is Ok,
        !pair_result(
            s,
            request,
            promotion_from(predecessor_from),
            authority,
            created_at,
        )->Ok_0.0.replayed,
    ensures
        ({
            let next = pair_result(
                s,
                request,
                promotion_from(predecessor_from),
                authority,
                created_at,
            )->Ok_0.1;
            let c = s.revision_at(request.candidate_id@)->0;
            let p = s.revision_at(request.predecessor_id@)->0;
            &&& c != p
            &&& status_of(s.revisions[c].status) == Some(LifecycleStatus::Canary)
            &&& status_of(s.revisions[p].status) == Some(predecessor_from)
            &&& next.revisions[c].status == "active"@
            &&& next.revisions[p].status == "superseded"@
            &&& next.revisions[p].superseded_by_id == Some(request.candidate_id@)
            &&& s.revisions[c].supersedes_id == Some(request.predecessor_id@)
            &&& next.desired_generation == s.desired_generation + 1
            &&& forall|i: int|
                0 <= i < s.revisions.len() && i != c && i != p ==> next.revisions[i]
                    == s.revisions[i]
        }),
{
    let c = s.revision_at(request.candidate_id@)->0;
    let p = s.revision_at(request.predecessor_id@)->0;
    assert(crate::store::first_match(
        s.revisions,
        crate::store::revision_has_id(request.candidate_id@),
        c,
    ));
    assert(crate::store::first_match(
        s.revisions,
        crate::store::revision_has_id(request.predecessor_id@),
        p,
    ));
}

/// Taking a promotion back makes the predecessor active again, with nothing over it, and
/// quarantines the candidate. But for versions and times the predecessor is then as any
/// active one before the promotion, and every other revision is as it was.
pub proof fn law_rollback_undoes_a_promotion(
    s: StoreModel,
    promotion: ReplacementTransitionRequest,
    authority: PromotionAuthority,
    promoted_at: i64,
    rollback: ReplacementTransitionRequest,
    rolled_back_at: i64,
)
    requires
        pair_result(
            s,
            promotion,
            promotion_from(LifecycleStatus::Active),
            authority,
            promoted_at,
        ) is Ok,
        !pair_result(
            s,
            promotion,
            promotion_from(LifecycleStatus::Active),
            authority,
            promoted_at,
        )->Ok_0.0.replayed,
        rollback.candidate_id@ == promotion.candidate_id@,
        rollback.predecessor_id@ == promotion.predecessor_id@,
        ({
            let promoted = pair_result(
                s,
                promotion,
                promotion_from(LifecycleStatus::Active),
                authority,
                promoted_at,
            )->Ok_0.1;
            let undone = pair_result(
                promoted,
                rollback,
                rollback_move(),
                PromotionAuthority::EvidenceThreshold { held: None },
                rolled_back_at,
            );
            undone is Ok && !undone->Ok_0.0.replayed
        }),
    ensures
        ({
            let promoted = pair_result(
                s,
                promotion,
                promotion_from(LifecycleStatus::Active),
                authority,
                promoted_at,
            )->Ok_0.1;
            let undone = pair_result(
                promoted,
                rollback,
                rollback_move(),
                PromotionAuthority::EvidenceThreshold { held: None },
                rolled_back_at,
            )->Ok_0.1;
            let c = s.revision_at(promotion.candidate_id@)->0;
            let p = s.revision_at(promotion.predecessor_id@)->0;
            &&& undone.revisions.len() == s.revisions.len()
            &&& undone.revisions[c].status == "quarantined"@
            &&& undone.revisions[p].status == "active"@
            &&& undone.revisions[p].superseded_by_id is None
            &&& undone.revisions[p].artifact == s.revisions[p].artifact
            &&& undone.revisions[p].supersedes_id == s.revisions[p].supersedes_id
            &&& undone.revisions[p].lineage_root_id == s.revisions[p].lineage_root_id
            &&& forall|i: int|
                0 <= i < s.revisions.len() && i != c && i != p ==> undone.revisions[i]
                    == s.revisions[i]
        }),
{
    let moves = promotion_from(LifecycleStatus::Active);
    let promoted = pair_result(s, promotion, moves, authority, promoted_at)->Ok_0.1;
    lemma_pair_keeps_places(s, promotion, moves, authority, promoted_at);
    let c = s.revision_at(promotion.candidate_id@)->0;
    let p = s.revision_at(promotion.predecessor_id@)->0;
    let has_c = crate::store::revision_has_id(promotion.candidate_id@);
    let has_p = crate::store::revision_has_id(promotion.predecessor_id@);
    assert(crate::store::first_match(s.revisions, has_c, c));
    assert(crate::store::first_match(s.revisions, has_p, p));
    assert(promoted.revision_at(rollback.candidate_id@) == Some(c));
    assert(promoted.revision_at(rollback.predecessor_id@) == Some(p));
}

proof fn lemma_pair_keeps_places(
    s: StoreModel,
    request: ReplacementTransitionRequest,
    moves: PairMove,
    authority: PromotionAuthority,
    created_at: i64,
)
    requires
        pair_result(s, request, moves, authority, created_at) is Ok,
        !pair_result(s, request, moves, authority, created_at)->Ok_0.0.replayed,
    ensures
        ({
            let next = pair_result(s, request, moves, authority, created_at)->Ok_0.1;
            &&& next.revision_at(request.candidate_id@) == s.revision_at(request.candidate_id@)
            &&& next.revision_at(request.predecessor_id@) == s.revision_at(
                request.predecessor_id@,
            )
        }),
{
    let next = pair_result(s, request, moves, authority, created_at)->Ok_0.1;
    let c = s.revision_at(request.candidate_id@)->0;
    let p = s.revision_at(request.predecessor_id@)->0;
    let has_c = crate::store::revision_has_id(request.candidate_id@);
    let has_p = crate::store::revision_has_id(request.predecessor_id@);
    assert(crate::store::first_match(s.revisions, has_c, c));
    assert(crate::store::first_match(s.revisions, has_p, p));
    assert forall|i: int| 0 <= i < s.revisions.len() implies has_c(#[trigger] next.revisions[i])
        == has_c(s.revisions[i]) && has_p(next.revisions[i]) == has_p(s.revisions[i]) by {}
    assert(crate::store::first_match(next.revisions, has_c, c));
    assert(crate::store::first_match(next.revisions, has_p, p));
    crate::store::lemma_position_found(next.revisions, has_c, c);
    crate::store::lemma_position_found(next.revisions, has_p, p);
}

/// No two active revisions replace the same revision.
pub open spec fn unforked(rows: Seq<RevisionModel>) -> bool {
    forall|i: int, j: int|
        0 <= i < rows.len() && 0 <= j < rows.len() && i != j && (#[trigger] rows[i]).status
            == "active"@ && (#[trigger] rows[j]).status == "active"@ && rows[i].supersedes_id
            is Some ==> rows[i].supersedes_id != rows[j].supersedes_id
}

/// No two revisions have the same id.
pub open spec fn revision_ids_are_unique(rows: Seq<RevisionModel>) -> bool {
    forall|i: int, j: int|
        0 <= i < j < rows.len() ==> (#[trigger] rows[i]).artifact.id != (
        #[trigger] rows[j]).artifact.id
}

/// An ordinary transition never lets two active revisions replace the same one.
pub proof fn law_transitions_keep_lineages_unforked(
    s: StoreModel,
    request: TransitionRequest,
    created_at: i64,
)
    requires
        unforked(s.revisions),
        transition_result(s, request, created_at) is Ok,
    ensures
        unforked(transition_result(s, request, created_at)->Ok_0.1.revisions),
{
    law_status_tokens_round_trip(request.to_status);
    law_status_tokens_round_trip(LifecycleStatus::Active);
    let next = transition_result(s, request, created_at)->Ok_0.1;
    if revision_state(s, request.skill_id@) is Ok {
        let at = s.revision_at(request.skill_id@)->0;
        assert(crate::store::first_match(
            s.revisions,
            crate::store::revision_has_id(request.skill_id@),
            at,
        ));
        assert forall|i: int, j: int|
            0 <= i < next.revisions.len() && 0 <= j < next.revisions.len() && i != j && (
            #[trigger] next.revisions[i]).status == "active"@ && (
            #[trigger] next.revisions[j]).status == "active"@ && next.revisions[i].supersedes_id
                is Some implies next.revisions[i].supersedes_id
            != next.revisions[j].supersedes_id by {
            assert(next.revisions[i].supersedes_id == s.revisions[i].supersedes_id);
            assert(next.revisions[j].supersedes_id == s.revisions[j].supersedes_id);
        }
    }
}

/// The activation of a root never lets two active revisions replace the same one.
pub proof fn law_activations_keep_lineages_unforked(
    s: StoreModel,
    key: Seq<char>,
    skill_id: Seq<char>,
    approval: HumanApproval,
    authorization: ApprovalAuthorization,
    m: SnapshotModel,
    consumed: Option<StoreFault>,
    created_at: i64,
)
    requires
        unforked(s.revisions),
        activation_result(s, key, skill_id, approval, authorization, m, consumed, created_at)
            is Ok,
    ensures
        unforked(
            activation_result(
                s,
                key,
                skill_id,
                approval,
                authorization,
                m,
                consumed,
                created_at,
            )->Ok_0.1.revisions,
        ),
{
    let next = activation_result(
        s,
        key,
        skill_id,
        approval,
        authorization,
        m,
        consumed,
        created_at,
    )->Ok_0.1;
    if s.revision(skill_id) is Some {
        let at = s.revision_at(skill_id)->0;
        assert(crate::store::first_match(
            s.revisions,
            crate::store::revision_has_id(skill_id),
            at,
        ));
        assert forall|i: int, j: int|
            0 <= i < next.revisions.len() && 0 <= j < next.revisions.len() && i != j && (
            #[trigger] next.revisions[i]).status == "active"@ && (
            #[trigger] next.revisions[j]).status == "active"@ && next.revisions[i].supersedes_id
                is Some implies next.revisions[i].supersedes_id
            != next.revisions[j].supersedes_id by {
            assert(next.revisions[i].supersedes_id == s.revisions[i].supersedes_id);
            assert(next.revisions[j].supersedes_id == s.revisions[j].supersedes_id);
        }
    }
}

/// A promotion never lets two active revisions replace the same one.
pub proof fn law_promotions_keep_lineages_unforked(
    s: StoreModel,
    request: ReplacementTransitionRequest,
    predecessor_from: LifecycleStatus,
    authority: PromotionAuthority,
    created_at: i64,
)
    requires
        unforked(s.revisions),
        revision_ids_are_unique(s.revisions),
        pair_result(s, request, promotion_from(predecessor_from), authority, created_at) is Ok,
    ensures
        unforked(
            pair_result(
                s,
                request,
                promotion_from(predecessor_from),
                authority,
                created_at,
            )->Ok_0.1.revisions,
        ),
{
    let moves = promotion_from(predecessor_from);
    let result = pair_result(s, request, moves, authority, created_at)->Ok_0;
    let next = result.1;
    if replayed_pair(s, request, moves) is None {
        law_status_tokens_round_trip(LifecycleStatus::Superseded);
        law_status_tokens_round_trip(LifecycleStatus::Active);
        let c = s.revision_at(request.candidate_id@)->0;
        let p = s.revision_at(request.predecessor_id@)->0;
        let rows = s.revisions;
        assert(crate::store::first_match(
            rows,
            crate::store::revision_has_id(request.candidate_id@),
            c,
        ));
        assert(crate::store::first_match(
            rows,
            crate::store::revision_has_id(request.predecessor_id@),
            p,
        ));
        let candidate = revision_state(s, request.candidate_id@)->Ok_0;
        assert(!has_active_sibling(rows, candidate));
        assert forall|i: int, j: int|
            0 <= i < next.revisions.len() && 0 <= j < next.revisions.len() && i != j && (
            #[trigger] next.revisions[i]).status == "active"@ && (
            #[trigger] next.revisions[j]).status == "active"@ && next.revisions[i].supersedes_id
                is Some implies next.revisions[i].supersedes_id
            != next.revisions[j].supersedes_id by {
            assert(next.revisions[i].supersedes_id == rows[i].supersedes_id);
            assert(next.revisions[j].supersedes_id == rows[j].supersedes_id);
            assert(i != p && j != p);
            if i == c {
                assert(rows[j].artifact.id != candidate.id);
                assert(rows[j].status == "active"@);
            } else if j == c {
                assert(rows[i].artifact.id != candidate.id);
                assert(rows[i].status == "active"@);
            } else {
                assert(rows[i].status == "active"@ && rows[j].status == "active"@);
            }
        }
    }
}

/// The steps that a revision may take, one by one: forward from pending over verified
/// and canary to active; from active to superseded and back; to rejected before it was
/// ever active; to quarantined from anywhere before the end; and to retired once it was
/// active or quarantined. There are no others.
pub proof fn law_a_revision_takes_only_these_steps(from: LifecycleStatus, to: LifecycleStatus)
    ensures
        from.successors().contains(to) <==> {
            ||| from is Pending && to is Verified
            ||| from is Verified && to is Canary
            ||| from is Canary && to is Active
            ||| from is Active && to is Superseded
            ||| from is Superseded && to is Active
            ||| (from is Pending || from is Verified || from is Canary) && to is Rejected
            ||| (from is Pending || from is Verified || from is Canary || from is Active || from
                is Superseded) && to is Quarantined
            ||| (from is Active || from is Superseded || from is Quarantined) && to is Retired
        },
        from.token() == match from {
            LifecycleStatus::Pending => "pending"@,
            LifecycleStatus::Verified => "verified"@,
            LifecycleStatus::Canary => "canary"@,
            LifecycleStatus::Active => "active"@,
            LifecycleStatus::Quarantined => "quarantined"@,
            LifecycleStatus::Superseded => "superseded"@,
            LifecycleStatus::Retired => "retired"@,
            LifecycleStatus::Rejected => "rejected"@,
        },
{
}

/// A snapshot is accepted exactly where it is of the one version there is, names an
/// artifact and a policy, has row versions from one on and a generation from zero on,
/// names a predecessor and its row version or neither, and no evidence twice.
pub proof fn law_snapshots_are_complete(m: SnapshotModel)
    ensures
        m.fault() is None <==> {
            &&& m.schema_version == 1
            &&& m.artifact_id.len() > 0
            &&& m.policy_version.len() > 0
            &&& m.artifact_row_version >= 1
            &&& m.index_generation >= 0
            &&& m.predecessor_id is Some <==> m.predecessor_row_version is Some
            &&& m.predecessor_row_version is Some ==> m.predecessor_row_version->0 >= 1
            &&& forall|i: int, j: int|
                0 <= i < j < m.evidence_ids.len() ==> m.evidence_ids[i] != m.evidence_ids[j]
        },
{
    assert(m.evidence_ids.no_duplicates() <==> forall|i: int, j: int|
        0 <= i < j < m.evidence_ids.len() ==> m.evidence_ids[i] != m.evidence_ids[j]);
}

/// Evidence is stored under a policy and is that of one of two skills.
pub open spec fn evidence_is_stored(
    s: StoreModel,
    id: Seq<char>,
    policy_version: Seq<char>,
    skill_id: Seq<char>,
    predecessor_id: Option<Seq<char>>,
) -> bool {
    exists|k: int|
        0 <= k < s.evidence.len() && (#[trigger] s.evidence[k]).evidence_id == id
            && s.evidence[k].policy_version == policy_version && (s.evidence[k].skill_id
            == skill_id || Some(s.evidence[k].skill_id) == predecessor_id)
}

/// A policy version is registered.
pub open spec fn policy_is_registered(s: StoreModel, version: Seq<char>) -> bool {
    exists|k: int| 0 <= k < s.policies.len() && (#[trigger] s.policies[k]).policy_version == version
}

proof fn lemma_policy_is_registered(s: StoreModel, version: Seq<char>)
    ensures
        s.policy(version) is Some ==> policy_is_registered(s, version),
{
    let p = crate::store::policy_has_version(version);
    if let Some(k) = crate::store::position(s.policies, p) {
        assert(crate::store::first_match(s.policies, p, k));
        assert(s.policies[k].policy_version == version);
    }
}

proof fn lemma_evidence_is_stored(
    s: StoreModel,
    m: SnapshotModel,
    required: bool,
    kind: Option<Seq<char>>,
)
    requires
        snapshot_evidence_holds(s, m, required, kind),
    ensures
        forall|i: int|
            0 <= i < m.evidence_ids.len() ==> evidence_is_stored(
                s,
                #[trigger] m.evidence_ids[i],
                m.policy_version,
                m.artifact_id,
                m.predecessor_id,
            ),
{
    assert forall|i: int| 0 <= i < m.evidence_ids.len() implies evidence_is_stored(
        s,
        #[trigger] m.evidence_ids[i],
        m.policy_version,
        m.artifact_id,
        m.predecessor_id,
    ) by {
        let id = m.evidence_ids[i];
        assert(evidence_acceptable(s, m, id, kind));
        let p = crate::store::evidence_is(id, m.policy_version);
        let k = crate::store::position(s.evidence, p)->0;
        assert(crate::store::first_match(s.evidence, p, k));
        assert(s.evidence[k].evidence_id == id);
    }
}

/// The ancestor that a walk up the lineage comes to after some steps.
pub open spec fn ancestor(
    rows: Seq<RevisionModel>,
    start: Option<Seq<char>>,
    steps: nat,
) -> Option<Seq<char>>
    decreases steps,
{
    match start {
        None => None,
        Some(id) => if steps == 0 {
            Some(id)
        } else {
            match crate::store::position(rows, crate::store::revision_has_id(id)) {
                None => None,
                Some(i) => ancestor(rows, rows[i].supersedes_id, (steps - 1) as nat),
            }
        },
    }
}

proof fn lemma_ancestors(
    rows: Seq<RevisionModel>,
    revision: RevisionStateModel,
    cursor: Option<Seq<char>>,
    seen: Seq<Seq<char>>,
    steps: nat,
)
    requires
        ancestry_fault(rows, revision, cursor, seen) is None,
        ancestor(rows, cursor, steps) is Some,
    ensures
        ({
            let id = ancestor(rows, cursor, steps)->0;
            &&& id != revision.id
            &&& !seen.contains(id)
            &&& exists|i: int|
                0 <= i < rows.len() && (#[trigger] rows[i]).artifact.id == id && rows[i].root()
                    == revision.lineage_root_id && (rows[i].supersedes_id is None ==> id
                    == revision.lineage_root_id)
        }),
    decreases steps,
{
    let id = cursor->0;
    let p = crate::store::revision_has_id(id);
    let i = crate::store::position(rows, p)->0;
    assert(crate::store::first_match(rows, p, i));
    assert(rows[i].artifact.id == id);
    if steps > 0 {
        lemma_ancestors(
            rows,
            revision,
            rows[i].supersedes_id,
            seen.push(id),
            (steps - 1) as nat,
        );
        let far = ancestor(rows, cursor, steps)->0;
        if seen.contains(far) {
            assert(seen.push(id)[seen.index_of(far)] == far);
        }
    }
}

/// Where nothing in its lineage speaks against a revision, every ancestor is stored, is
/// of its root, and is not the revision itself; the lineage ends only at that root. A
/// revision without predecessor is its own root, and one that is to become active has no
/// active sibling.
pub proof fn law_lineages_lead_to_their_root(
    rows: Seq<RevisionModel>,
    revision: RevisionStateModel,
    next: LifecycleStatus,
    steps: nat,
)
    requires
        lineage_fault(rows, revision, next) is None,
    ensures
        revision.supersedes_id != Some(revision.id),
        revision.superseded_by_id != Some(revision.id),
        revision.supersedes_id is None ==> revision.lineage_root_id == revision.id,
        ancestor(rows, revision.supersedes_id, steps) matches Some(id) ==> id != revision.id
            && exists|i: int|
            0 <= i < rows.len() && (#[trigger] rows[i]).artifact.id == id && rows[i].root()
                == revision.lineage_root_id && (rows[i].supersedes_id is None ==> id
                == revision.lineage_root_id),
        next is Active && revision.supersedes_id is Some ==> forall|i: int|
            0 <= i < rows.len() && (#[trigger] rows[i]).supersedes_id == revision.supersedes_id
                && rows[i].status == "active"@ ==> rows[i].artifact.id == revision.id,
{
    if ancestor(rows, revision.supersedes_id, steps) is Some {
        lemma_ancestors(rows, revision, revision.supersedes_id, Seq::empty(), steps);
    }
}

/// A transition goes through only where every guard holds: the step is one of its
/// status, none that has a service of its own, its snapshot is whole and speaks of just
/// this revision in this version, its policy is registered and its evidence stored under
/// that policy, and neither the revision nor the index has moved on since. It records
/// what was asked for.
pub proof fn law_transitions_pass_every_guard(
    s: StoreModel,
    request: TransitionRequest,
    created_at: i64,
)
    requires
        transition_result(s, request, created_at) is Ok,
        !transition_result(s, request, created_at)->Ok_0.0.replayed,
        s.desired_generation < i64::MAX,
        request.expected_row_version < i64::MAX,
    ensures
        ({
            let m = request.snapshot@;
            let (outcome, next) = transition_result(s, request, created_at)->Ok_0;
            let row = next.transitions.last();
            &&& exists|at: int|
                0 <= at < s.revisions.len() && (#[trigger] s.revisions[at]).artifact.id
                    == request.skill_id@ && s.revisions[at].status == request.from_status.token()
                    && s.revisions[at].row_version == request.expected_row_version
            &&& !(request.to_status is Canary) && !(request.to_status is Active)
                && !(request.to_status is Superseded && request.from_status is Active)
            &&& !(request.from_status is Rejected) && !(request.from_status is Retired)
            &&& request.idempotency_key@.len() > 0 && request.reason@.len() > 0
            &&& m.artifact_id == request.skill_id@
            &&& m.artifact_row_version == request.expected_row_version
            &&& m.index_generation == s.desired_generation
            &&& policy_is_registered(s, m.policy_version)
            &&& forall|i: int|
                0 <= i < m.evidence_ids.len() ==> evidence_is_stored(
                    s,
                    #[trigger] m.evidence_ids[i],
                    m.policy_version,
                    m.artifact_id,
                    m.predecessor_id,
                )
            &&& next.transitions.len() == s.transitions.len() + 1
            &&& row.idempotency_key == request.idempotency_key@
            &&& row.skill_id == request.skill_id@
            &&& row.predecessor_id == m.predecessor_id
            &&& row.from_status == request.from_status.token()
            &&& row.to_status == request.to_status.token()
            &&& row.reason == request.reason@
            &&& row.evidence_snapshot == m.json()
            &&& row.policy_version == m.policy_version
            &&& row.row_version_from == request.expected_row_version
            &&& row.row_version_to == request.expected_row_version + 1
            &&& row.desired_generation == s.desired_generation + 1
            &&& row.created_at == created_at
            &&& outcome.skill_id == request.skill_id@
            &&& outcome.status == request.to_status
            &&& outcome.row_version == request.expected_row_version + 1
            &&& outcome.desired_generation == s.desired_generation + 1
            &&& outcome.transition_id == s.next_transition_id
            &&& next.approvals == s.approvals && next.evidence == s.evidence && next.policies
                == s.policies && next.feedback == s.feedback
        }),
{
    let m = request.snapshot@;
    let p = crate::store::revision_has_id(request.skill_id@);
    let at = s.revision_at(request.skill_id@)->0;
    assert(crate::store::first_match(s.revisions, p, at));
    lemma_status_is_its_token(s.revisions[at].status, request.from_status);
    assert(s.revisions[at].artifact.id == request.skill_id@);
    lemma_policy_is_registered(s, m.policy_version);
    lemma_evidence_is_stored(s, m, false, None);
}

proof fn lemma_status_is_its_token(token: Seq<char>, status: LifecycleStatus)
    ensures
        status_of(token) == Some(status) ==> token == status.token(),
{
}

/// A request that was carried out before is told from another under the same key: only
/// the same step of the same revision on the same snapshot gets the recorded outcome, and
/// anything else is a conflict that changes nothing.
pub proof fn law_a_key_stands_for_one_transition(
    s: StoreModel,
    request: TransitionRequest,
    created_at: i64,
    i: int,
)
    requires
        0 <= i < s.transitions.len(),
        s.transitions[i].idempotency_key == request.idempotency_key@,
        forall|j: int|
            0 <= j < i ==> (#[trigger] s.transitions[j]).idempotency_key
                != request.idempotency_key@,
    ensures
        transition_result(s, request, created_at) matches Ok((outcome, next)) ==> {
            let row = s.transitions[i];
            &&& next == s
            &&& outcome.replayed
            &&& outcome.transition_id == row.transition_id
            &&& outcome.row_version == row.row_version_to
            &&& outcome.desired_generation == row.desired_generation
            &&& outcome.status == request.to_status
            &&& row.skill_id == request.skill_id@
            &&& row.from_status == request.from_status.token()
            &&& row.to_status == request.to_status.token()
            &&& row.evidence_snapshot == request.snapshot@.json()
        },
{
    crate::store::lemma_position_found(
        s.transitions,
        crate::store::transition_has_key(request.idempotency_key@),
        i,
    );
}

/// An approval of a person is complete: it has an id, an actor, a report and a version.
pub open spec fn approval_is_whole(approval: HumanApproval) -> bool {
    approval.approval_id@.len() > 0 && approval.actor_id@.len() > 0
        && approval.evaluation_report_id@.len() > 0 && approval.expected_row_version >= 1
}

/// Some stored approval let a skill into canary, and it is not the one that is given now.
pub open spec fn approved_before(s: StoreModel, skill_id: Seq<char>, now: Seq<char>) -> bool {
    exists|k: int|
        0 <= k < s.approvals.len() && (#[trigger] s.approvals[k]).skill_id == skill_id
            && s.approvals[k].approval_kind == "phase4_canary"@ && s.approvals[k].approval_id
            != now
}

proof fn lemma_approved_before(s: StoreModel, skill_id: Seq<char>, now: Seq<char>)
    ensures
        first_approval(s, skill_id) is Some && first_approval(s, skill_id)->0 != now
            ==> approved_before(s, skill_id, now),
{
    let p = crate::store::approval_is_for(skill_id, "phase4_canary"@);
    if let Some(k) = crate::store::position(s.approvals, p) {
        assert(crate::store::first_match(s.approvals, p, k));
        assert(s.approvals[k].skill_id == skill_id);
    }
}

/// A revision is stored as it is claimed to be.
pub open spec fn stored_as(
    row: RevisionModel,
    id: Seq<char>,
    status: Seq<char>,
    row_version: i64,
) -> bool {
    row.artifact.id == id && row.status == status && row.row_version == row_version
}

/// A root is activated only where a person approves, a second time and in other words
/// than the first, of just the canary and the report that are stored, in the version that
/// was seen, with an authority of that person for that approval which was consumed; the
/// policy is registered, the evidence stored and the index has not moved on. Then it is
/// active, in its next version and generation, and the second approval is on record.
pub proof fn law_activations_pass_every_guard(
    s: StoreModel,
    key: Seq<char>,
    skill_id: Seq<char>,
    approval: HumanApproval,
    authorization: ApprovalAuthorization,
    m: SnapshotModel,
    consumed: Option<StoreFault>,
    created_at: i64,
)
    requires
        activation_result(s, key, skill_id, approval, authorization, m, consumed, created_at)
            is Ok,
        !activation_result(
            s,
            key,
            skill_id,
            approval,
            authorization,
            m,
            consumed,
            created_at,
        )->Ok_0.0.replayed,
        s.desired_generation < i64::MAX,
        approval.expected_row_version < i64::MAX,
    ensures
        ({
            let (outcome, next) = activation_result(
                s,
                key,
                skill_id,
                approval,
                authorization,
                m,
                consumed,
                created_at,
            )->Ok_0;
            let row = next.transitions.last();
            &&& approval_is_whole(approval)
            &&& authorization.authorization_id@ == approval.approval_id@
            &&& authorization.principal@ == approval.actor_id@
            &&& consumed is None
            &&& approved_before(s, skill_id, approval.approval_id@)
            &&& key.len() > 0
            &&& m.artifact_id == skill_id && m.artifact_row_version
                == approval.expected_row_version
            &&& m.predecessor_id is None && m.predecessor_row_version is None
            &&& m.index_generation == s.desired_generation
            &&& m.fault() is None
            &&& policy_is_registered(s, m.policy_version)
            &&& forall|i: int|
                0 <= i < m.evidence_ids.len() ==> evidence_is_stored(
                    s,
                    #[trigger] m.evidence_ids[i],
                    m.policy_version,
                    m.artifact_id,
                    m.predecessor_id,
                )
            &&& exists|at: int|
                0 <= at < s.revisions.len() && stored_as(
                    #[trigger] s.revisions[at],
                    skill_id,
                    "canary"@,
                    approval.expected_row_version,
                ) && s.revisions[at].evaluation_report_id == Some(approval.evaluation_report_id@)
                    && s.revisions[at].supersedes_id is None && s.revisions[at].root() == skill_id
                    && next.revisions == s.revisions.update(
                    at,
                    RevisionModel {
                        status: "active"@,
                        row_version: (approval.expected_row_version + 1) as i64,
                        updated_at: created_at,
                        ..s.revisions[at]
                    },
                )
            &&& next.desired_generation == s.desired_generation + 1
            &&& next.transitions.len() == s.transitions.len() + 1
            &&& row.idempotency_key == key && row.skill_id == skill_id
            &&& row.from_status == "canary"@ && row.to_status == "active"@
            &&& row.evidence_snapshot == m.json() && row.policy_version == m.policy_version
            &&& outcome.status is Active
            &&& outcome.row_version == approval.expected_row_version + 1
            &&& outcome.desired_generation == s.desired_generation + 1
            &&& exists|k: int|
                0 <= k < next.approvals.len() && is_approval_of(
                    #[trigger] next.approvals[k],
                    skill_id,
                    "phase5_root_activation"@,
                    approval,
                )
        }),
{
    let p = crate::store::revision_has_id(skill_id);
    let at = s.revision_at(skill_id)->0;
    assert(crate::store::first_match(s.revisions, p, at));
    lemma_status_is_its_token(s.revisions[at].status, LifecycleStatus::Canary);
    lemma_approved_before(s, skill_id, approval.approval_id@);
    lemma_policy_is_registered(s, m.policy_version);
    lemma_evidence_is_stored(s, m, false, None);
    assert(stored_as(s.revisions[at], skill_id, "canary"@, approval.expected_row_version));
    lemma_approval_is_on_record(
        s,
        approval_record(skill_id, "phase5_root_activation"@, approval, created_at),
    );
    let next = activation_result(
        s,
        key,
        skill_id,
        approval,
        authorization,
        m,
        consumed,
        created_at,
    )->Ok_0.1;
    let recorded = with_approval(
        s,
        approval_record(skill_id, "phase5_root_activation"@, approval, created_at),
    );
    assert(next.approvals == recorded.approvals);
    let k = choose|k: int|
        0 <= k < recorded.approvals.len() && same_binding(
            #[trigger] recorded.approvals[k],
            approval_record(skill_id, "phase5_root_activation"@, approval, created_at),
        );
    assert(is_approval_of(next.approvals[k], skill_id, "phase5_root_activation"@, approval));
}

/// A stored approval is of a person's approval.
pub open spec fn is_approval_of(
    row: ApprovalModel,
    skill_id: Seq<char>,
    kind: Seq<char>,
    approval: HumanApproval,
) -> bool {
    &&& row.approval_id == approval.approval_id@
    &&& row.skill_id == skill_id
    &&& row.approval_kind == kind
    &&& row.actor_id == approval.actor_id@
    &&& row.artifact_row_version == approval.expected_row_version
    &&& row.evaluation_report_id == approval.evaluation_report_id@
}

proof fn lemma_approval_is_on_record(s: StoreModel, record: ApprovalModel)
    requires
        approval_fault(s, record) is None,
    ensures
        exists|k: int|
            0 <= k < with_approval(s, record).approvals.len() && same_binding(
                #[trigger] with_approval(s, record).approvals[k],
                record,
            ),
{
    let p = crate::store::approval_has_id(record.approval_id);
    match crate::store::position(s.approvals, p) {
        Some(k) => {
            assert(crate::store::first_match(s.approvals, p, k));
            assert(same_binding(with_approval(s, record).approvals[k], record));
        },
        None => {
            let n = s.approvals.len() as int;
            assert(with_approval(s, record).approvals[n] == record);
            assert(same_binding(with_approval(s, record).approvals[n], record));
        },
    }
}

/// The first approval is taken only of a canary without predecessor, in the version that
/// was seen and with the report that is stored, and it is then on record as such.
pub proof fn law_first_approvals_are_of_root_canaries(
    s: StoreModel,
    skill_id: Seq<char>,
    approval: HumanApproval,
    created_at: i64,
)
    requires
        root_canary_approval_fault(s, skill_id, approval, created_at) is None,
    ensures
        approval_is_whole(approval),
        exists|at: int|
            0 <= at < s.revisions.len() && stored_as(
                #[trigger] s.revisions[at],
                skill_id,
                "canary"@,
                approval.expected_row_version,
            ) && s.revisions[at].supersedes_id is None && s.revisions[at].evaluation_report_id
                == Some(approval.evaluation_report_id@),
        ({
            let next = with_approval(
                s,
                approval_record(skill_id, "phase4_canary"@, approval, created_at),
            );
            exists|k: int|
                0 <= k < next.approvals.len() && is_approval_of(
                    #[trigger] next.approvals[k],
                    skill_id,
                    "phase4_canary"@,
                    approval,
                )
        }),
{
    let p = crate::store::revision_has_id(skill_id);
    let at = s.revision_at(skill_id)->0;
    assert(crate::store::first_match(s.revisions, p, at));
    lemma_status_is_its_token(s.revisions[at].status, LifecycleStatus::Canary);
    assert(stored_as(s.revisions[at], skill_id, "canary"@, approval.expected_row_version));
    let record = approval_record(skill_id, "phase4_canary"@, approval, created_at);
    lemma_approval_is_on_record(s, record);
    let next = with_approval(s, record);
    let k = choose|k: int|
        0 <= k < next.approvals.len() && same_binding(#[trigger] next.approvals[k], record);
    assert(is_approval_of(next.approvals[k], skill_id, "phase4_canary"@, approval));
}

/// An approval id is bound once: one that is on record for anything else is refused.
pub proof fn law_an_approval_id_is_bound_once(
    s: StoreModel,
    skill_id: Seq<char>,
    kind: Seq<char>,
    approval: HumanApproval,
    created_at: i64,
    i: int,
)
    requires
        0 <= i < s.approvals.len(),
        s.approvals[i].approval_id == approval.approval_id@,
        forall|j: int|
            0 <= j < i ==> (#[trigger] s.approvals[j]).approval_id != approval.approval_id@,
    ensures
        ({
            let record = approval_record(skill_id, kind, approval, created_at);
            &&& approval_fault(s, record) is None <==> is_approval_of(
                s.approvals[i],
                skill_id,
                kind,
                approval,
            )
            &&& with_approval(s, record) == s
        }),
{
    crate::store::lemma_position_found(
        s.approvals,
        crate::store::approval_has_id(approval.approval_id@),
        i,
    );
    let record = approval_record(skill_id, kind, approval, created_at);
    if is_approval_of(s.approvals[i], skill_id, kind, approval) {
        assert(s.approvals[i] =~= (ApprovalModel { created_at: s.approvals[i].created_at, ..record }));
    }
}

/// A pair moves only where every guard holds: the request names both revisions in the
/// versions that are stored, the candidate replaces just that predecessor within one
/// lineage, both stand where the move starts, the policy is registered, the evidence is
/// there and stored under that policy, and the index has not moved on. A promotion needs
/// its authority: no hold from the policy, or a second approval of the local owner in
/// other words than the first, of the stored report and version, with an authority of that
/// person for it that was consumed.
pub proof fn law_pairs_pass_every_guard(
    s: StoreModel,
    request: ReplacementTransitionRequest,
    moves: PairMove,
    authority: PromotionAuthority,
    created_at: i64,
)
    requires
        pair_result(s, request, moves, authority, created_at) is Ok,
        !pair_result(s, request, moves, authority, created_at)->Ok_0.0.replayed,
    ensures
        ({
            let m = request.snapshot@;
            &&& request.idempotency_key@.len() > 0 && request.reason@.len() > 0
            &&& m.evidence_ids.len() > 0 && m.policy_inputs.len() > 0
            &&& m.artifact_id == request.candidate_id@
            &&& m.predecessor_id == Some(request.predecessor_id@)
            &&& m.artifact_row_version == request.candidate_row_version
            &&& m.predecessor_row_version == Some(request.predecessor_row_version)
            &&& m.index_generation == s.desired_generation
            &&& m.fault() is None
            &&& policy_is_registered(s, m.policy_version)
            &&& forall|i: int|
                0 <= i < m.evidence_ids.len() ==> evidence_is_stored(
                    s,
                    #[trigger] m.evidence_ids[i],
                    m.policy_version,
                    m.artifact_id,
                    m.predecessor_id,
                )
            &&& exists|c: int, p: int|
                0 <= c < s.revisions.len() && 0 <= p < s.revisions.len() && stored_as(
                    #[trigger] s.revisions[c],
                    request.candidate_id@,
                    moves.candidate_from.token(),
                    request.candidate_row_version,
                ) && stored_as(
                    #[trigger] s.revisions[p],
                    request.predecessor_id@,
                    moves.predecessor_from.token(),
                    request.predecessor_row_version,
                ) && s.revisions[c].supersedes_id == Some(request.predecessor_id@)
                    && s.revisions[c].root() == s.revisions[p].root()
            &&& moves.candidate_to is Active && moves.predecessor_to is Superseded
                ==> match authority {
                PromotionAuthority::EvidenceThreshold { held } => held is None,
                PromotionAuthority::LocalOwner { approval, authorization, consumed } => {
                    &&& consumed is Ok
                    &&& approval_is_whole(*approval)
                    &&& authorization.authorization_id@ == approval.approval_id@
                    &&& authorization.principal@ == approval.actor_id@
                    &&& approval.expected_row_version == request.candidate_row_version
                    &&& approved_before(s, request.candidate_id@, approval.approval_id@)
                    &&& stored_report(s, request.candidate_id@) == Some(
                        approval.evaluation_report_id@,
                    )
                },
            }
        }),
{
    let m = request.snapshot@;
    let c = s.revision_at(request.candidate_id@)->0;
    let p = s.revision_at(request.predecessor_id@)->0;
    assert(crate::store::first_match(
        s.revisions,
        crate::store::revision_has_id(request.candidate_id@),
        c,
    ));
    assert(crate::store::first_match(
        s.revisions,
        crate::store::revision_has_id(request.predecessor_id@),
        p,
    ));
    lemma_status_is_its_token(s.revisions[c].status, moves.candidate_from);
    lemma_status_is_its_token(s.revisions[p].status, moves.predecessor_from);
    assert(stored_as(
        s.revisions[c],
        request.candidate_id@,
        moves.candidate_from.token(),
        request.candidate_row_version,
    ));
    assert(stored_as(
        s.revisions[p],
        request.predecessor_id@,
        moves.predecessor_from.token(),
        request.predecessor_row_version,
    ));
    lemma_policy_is_registered(s, m.policy_version);
    lemma_evidence_is_stored(s, m, true, required_kind(moves.promoting(), authority));
    if let PromotionAuthority::LocalOwner { approval, .. } = authority {
        lemma_approved_before(s, request.candidate_id@, approval.approval_id@);
    }
}

/// What a pair that moved leaves behind: both revisions in their new status and next
/// version, two transitions that say so under the one key, a promotion by the local owner
/// with its approval on record, and one more generation.
pub proof fn law_pairs_are_recorded_on_both_sides(
    s: StoreModel,
    request: ReplacementTransitionRequest,
    moves: PairMove,
    authority: PromotionAuthority,
    created_at: i64,
)
    requires
        pair_result(s, request, moves, authority, created_at) is Ok,
        !pair_result(s, request, moves, authority, created_at)->Ok_0.0.replayed,
        s.desired_generation < i64::MAX,
        request.candidate_row_version < i64::MAX,
        request.predecessor_row_version < i64::MAX,
    ensures
        ({
            let (outcome, next) = pair_result(s, request, moves, authority, created_at)->Ok_0;
            let n = s.transitions.len() as int;
            let c = s.revision_at(request.candidate_id@)->0;
            let p = s.revision_at(request.predecessor_id@)->0;
            let m = request.snapshot@;
            &&& next.transitions.len() == n + 2
            &&& next.transitions[n].idempotency_key == request.idempotency_key@ + ":candidate"@
            &&& next.transitions[n + 1].idempotency_key == request.idempotency_key@
                + ":predecessor"@
            &&& next.transitions[n].skill_id == request.candidate_id@
            &&& next.transitions[n + 1].skill_id == request.predecessor_id@
            &&& next.transitions[n].from_status == moves.candidate_from.token()
            &&& next.transitions[n].to_status == moves.candidate_to.token()
            &&& next.transitions[n + 1].from_status == moves.predecessor_from.token()
            &&& next.transitions[n + 1].to_status == moves.predecessor_to.token()
            &&& next.transitions[n].evidence_snapshot == m.json()
            &&& next.transitions[n + 1].evidence_snapshot == m.json()
            &&& next.transitions[n].reason == request.reason@
            &&& next.transitions[n].row_version_to == request.candidate_row_version + 1
            &&& next.transitions[n + 1].row_version_to == request.predecessor_row_version + 1
            &&& next.transitions[n].desired_generation == s.desired_generation + 1
            &&& next.revisions[c].status == moves.candidate_to.token()
            &&& next.revisions[p].status == moves.predecessor_to.token()
            &&& next.revisions[c].row_version == request.candidate_row_version + 1
            &&& next.revisions[p].row_version == request.predecessor_row_version + 1
            &&& next.revisions[c].artifact == s.revisions[c].artifact
            &&& next.revisions[p].artifact == s.revisions[p].artifact
            &&& next.desired_generation == s.desired_generation + 1
            &&& outcome.candidate_status == moves.candidate_to
            &&& outcome.predecessor_status == moves.predecessor_to
            &&& outcome.candidate_row_version == request.candidate_row_version + 1
            &&& outcome.predecessor_row_version == request.predecessor_row_version + 1
            &&& outcome.desired_generation == s.desired_generation + 1
            &&& match authority {
                PromotionAuthority::LocalOwner { approval, .. } => moves.promoting() ==> exists|
                    k: int,
                |
                    0 <= k < next.approvals.len() && is_approval_of(
                        #[trigger] next.approvals[k],
                        request.candidate_id@,
                        "phase5_operator_promotion"@,
                        *approval,
                    ),
                _ => next.approvals == s.approvals,
            }
        }),
{
    let (outcome, next) = pair_result(s, request, moves, authority, created_at)->Ok_0;
    let c = s.revision_at(request.candidate_id@)->0;
    let p = s.revision_at(request.predecessor_id@)->0;
    assert(crate::store::first_match(
        s.revisions,
        crate::store::revision_has_id(request.candidate_id@),
        c,
    ));
    assert(crate::store::first_match(
        s.revisions,
        crate::store::revision_has_id(request.predecessor_id@),
        p,
    ));
    if c == p {
        let state = revision_state(s, request.candidate_id@)->Ok_0;
        assert(lineage_fault(s.revisions, state, moves.candidate_to) is None);
    }
    if let PromotionAuthority::LocalOwner { approval, .. } = authority {
        if moves.promoting() {
            let record = approval_record(
                request.candidate_id@,
                "phase5_operator_promotion"@,
                *approval,
                created_at,
            );
            lemma_approval_is_on_record(s, record);
            let recorded = with_approval(s, record);
            let k = choose|k: int|
                0 <= k < recorded.approvals.len() && same_binding(
                    #[trigger] recorded.approvals[k],
                    record,
                );
            assert(next.approvals == recorded.approvals);
            assert(is_approval_of(
                next.approvals[k],
                request.candidate_id@,
                "phase5_operator_promotion"@,
                *approval,
            ));
        }
    }
}

/// The moves of a pair: a promotion makes a canary active in the place of its
/// predecessor; a rollback quarantines the active candidate and makes the superseded
/// predecessor active again.
pub proof fn law_pairs_move_as_named(predecessor_from: LifecycleStatus)
    ensures
        promotion_from(predecessor_from).candidate_from is Canary,
        promotion_from(predecessor_from).candidate_to is Active,
        promotion_from(predecessor_from).predecessor_from == predecessor_from,
        promotion_from(predecessor_from).predecessor_to is Superseded,
        rollback_move().candidate_from is Active,
        rollback_move().candidate_to is Quarantined,
        rollback_move().predecessor_from is Superseded,
        rollback_move().predecessor_to is Active,
{
}

/// A policy version stands for one document: it is registered once, and then only the
/// same document is accepted for it. Evidence of the operator is kept as it was first
/// recorded, under a kind of its own.
pub proof fn law_policies_and_evidence_are_kept(
    s: StoreModel,
    version: Seq<char>,
    canonical: Seq<char>,
    other: Seq<char>,
    evidence_id: Seq<char>,
    skill_id: Seq<char>,
    created_at: i64,
)
    ensures
        register_policy_result(s, version, canonical, created_at) matches Ok(next) ==> {
            &&& policy_is_registered(next, version)
            &&& s.policies.is_prefix_of(next.policies)
            &&& next.policy(version) matches Some(row) && row.policy_json == canonical
            &&& register_policy_result(next, version, other, created_at) is Ok <==> other
                == canonical
            &&& next.revisions == s.revisions && next.evidence == s.evidence
        },
        s.policy(version) is None ==> register_policy_result(s, version, canonical, created_at)
            is Ok,
        ({
            let next = with_operator_evidence(
                s,
                evidence_id,
                skill_id,
                version,
                canonical,
                created_at,
            );
            &&& s.evidence.is_prefix_of(next.evidence)
            &&& next.evidence.len() > s.evidence.len() ==> {
                let row = next.evidence.last();
                &&& row.evidence_id == evidence_id
                &&& row.skill_id == skill_id
                &&& row.evidence_kind == "operator_promotion"@
                &&& row.policy_version == version
                &&& row.payload_json == canonical
            }
            &&& exists|k: int|
                0 <= k < next.evidence.len() && (#[trigger] next.evidence[k]).evidence_id
                    == evidence_id
        }),
{
    let p = crate::store::policy_has_version(version);
    if let Ok(next) = register_policy_result(s, version, canonical, created_at) {
        match crate::store::position(s.policies, p) {
            None => {
                let n = s.policies.len() as int;
                assert forall|j: int| 0 <= j < n implies !p(#[trigger] next.policies[j]) by {
                    if p(s.policies[j]) {
                        crate::store::lemma_some_match_is_found(s.policies, p, j);
                    }
                }
                assert(crate::store::first_match(next.policies, p, n));
                crate::store::lemma_position_found(next.policies, p, n);
            },
            Some(k) => {},
        }
        lemma_policy_is_registered(next, version);
    }
    let q = crate::store::evidence_has_id(evidence_id);
    let next = with_operator_evidence(s, evidence_id, skill_id, version, canonical, created_at);
    match crate::store::position(s.evidence, q) {
        Some(k) => {
            assert(crate::store::first_match(s.evidence, q, k));
            assert(next.evidence[k].evidence_id == evidence_id);
        },
        None => {
            assert(next.evidence[s.evidence.len() as int].evidence_id == evidence_id);
        },
    }
}

} // verus!
