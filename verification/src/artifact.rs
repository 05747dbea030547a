//! Immutable learned-JS skill artifacts, canonical identity and capability types.
//!
//! Identity rules:
//!
//! - `id` is the full 64-character lowercase hex SHA-256 of a versioned canonical
//!   serialization. Short or truncated ids are never valid.
//! - Exact UTF-8 bytes are preserved for source, tests and description. No white
//!   space or newline normalization occurs.
//! - Every field and list item is length-prefixed, so no two distinct artifacts
//!   serialize to the same byte string.
//! - Operational data (timestamps, status, lineage, row version, embeddings) is
//!   outside identity.

use crate::digest;
use crate::json;
use crate::text;
use vstd::prelude::*;
use vstd::relations::*;
use vstd::seq_lib::*;
use vstd::string::*;

verus! {

/// Version of the canonical serialization scheme. Bumping this changes every identity.
pub const IDENTITY_VERSION: u32 = 1;

/// Hardens the shared script realm before any untrusted skill source is evaluated:
/// dynamic-code constructors and prototype mutation would otherwise recover the
/// ambient global object from a lexical skill namespace.
pub const SKILL_REALM_HARDENING_JS: &'static str = r#"
(function () {
  const objects = [];
  const add = (value) => {
    if (value && !objects.includes(value)) objects.push(value);
  };
  for (const value of [
    Object.prototype, Function.prototype, Array.prototype, String.prototype,
    Number.prototype, Boolean.prototype, RegExp.prototype, Date.prototype,
    Error.prototype, TypeError.prototype, RangeError.prototype, ReferenceError.prototype,
    SyntaxError.prototype, EvalError.prototype, URIError.prototype,
    Map.prototype, Set.prototype, WeakMap.prototype, WeakSet.prototype,
    ArrayBuffer.prototype, DataView.prototype, Promise.prototype,
    Object.getPrototypeOf(Uint8Array.prototype),
    Object.getPrototypeOf(async function () {}),
    Object.getPrototypeOf(function* () {}),
    Object.getPrototypeOf(async function* () {}),
    JSON, Math, Reflect
  ]) add(value);
  for (const value of objects) {
    if (Object.prototype.hasOwnProperty.call(value, 'constructor')) {
      Object.defineProperty(value, 'constructor', {
        value: undefined, writable: false, configurable: false
      });
    }
  }
  for (const value of objects) Object.freeze(value);
  Object.defineProperty(globalThis, 'eval', {
    value: undefined, writable: false, configurable: false
  });
  Object.defineProperty(globalThis, 'Function', {
    value: undefined, writable: false, configurable: false
  });
})()
"#;

/// Domain separator binding identities to this scheme.
pub const IDENTITY_DOMAIN: &'static str = "mini-agent/skill-identity";

/// Capability tier.
#[derive(Debug, Clone, Copy, PartialEq, Eq, PartialOrd, Ord, Hash, Structural)]
pub enum CapabilityTier {
    /// No host globals whatsoever.
    Pure,
    /// Read-only host operations only.
    ReadOnly,
    /// May declare any supported host operation.
    SideEffecting,
}

impl CapabilityTier {
    pub open spec fn token(self) -> Seq<char> {
        match self {
            CapabilityTier::Pure => "pure"@,
            CapabilityTier::ReadOnly => "read_only"@,
            CapabilityTier::SideEffecting => "side_effecting"@,
        }
    }

    /// Stable wire token.
    pub fn as_token(self) -> (r: &'static str)
        ensures
            r@ == self.token(),
    {
        match self {
            CapabilityTier::Pure => "pure",
            CapabilityTier::ReadOnly => "read_only",
            CapabilityTier::SideEffecting => "side_effecting",
        }
    }

    /// Parses a stable wire token.
    pub fn from_token(token: &str) -> (r: Option<CapabilityTier>)
        ensures
            match r {
                Some(tier) => tier.token() == token@,
                None => forall|tier: CapabilityTier| #[trigger] tier.token() != token@,
            },
    {
        if text::same(token, "pure") {
            Some(CapabilityTier::Pure)
        } else if text::same(token, "read_only") {
            Some(CapabilityTier::ReadOnly)
        } else if text::same(token, "side_effecting") {
            Some(CapabilityTier::SideEffecting)
        } else {
            None
        }
    }

    /// What a tier may declare: nothing, operations without local mutation or
    /// network egress, or anything.
    pub open spec fn spec_permits(self, capability: HostCapability) -> bool {
        match self {
            CapabilityTier::Pure => false,
            CapabilityTier::ReadOnly => capability is ReadFile,
            CapabilityTier::SideEffecting => true,
        }
    }

    /// Whether this tier may declare `capability`.
    pub fn permits(self, capability: HostCapability) -> (r: bool)
        ensures
            r == self.spec_permits(capability),
    {
        match self {
            CapabilityTier::Pure => false,
            CapabilityTier::ReadOnly => capability.is_read_only(),
            CapabilityTier::SideEffecting => true,
        }
    }
}

/// A single host operation a skill may declare. The list is closed.
#[derive(Debug, Clone, Copy, PartialEq, Eq, PartialOrd, Ord, Hash, Structural)]
pub enum HostCapability {
    ReadFile,
    WriteFile,
    Spawn,
    Fetch,
}

impl HostCapability {
    pub open spec fn token(self) -> Seq<char> {
        match self {
            HostCapability::ReadFile => "read_file"@,
            HostCapability::WriteFile => "write_file"@,
            HostCapability::Spawn => "spawn"@,
            HostCapability::Fetch => "fetch"@,
        }
    }

    /// Stable wire token.
    pub fn as_token(self) -> (r: &'static str)
        ensures
            r@ == self.token(),
    {
        match self {
            HostCapability::ReadFile => "read_file",
            HostCapability::WriteFile => "write_file",
            HostCapability::Spawn => "spawn",
            HostCapability::Fetch => "fetch",
        }
    }

    /// Parses a stable wire token. Unknown tokens give `None`.
    pub fn from_token(token: &str) -> (r: Option<HostCapability>)
        ensures
            match r {
                Some(capability) => capability.token() == token@,
                None => forall|capability: HostCapability| #[trigger]
                    capability.token() != token@,
            },
    {
        if text::same(token, "read_file") {
            Some(HostCapability::ReadFile)
        } else if text::same(token, "write_file") {
            Some(HostCapability::WriteFile)
        } else if text::same(token, "spawn") {
            Some(HostCapability::Spawn)
        } else if text::same(token, "fetch") {
            Some(HostCapability::Fetch)
        } else {
            None
        }
    }

    /// Whether the operation is free of local mutation and network egress.
    pub fn is_read_only(self) -> (r: bool)
        ensures
            r == (self is ReadFile),
    {
        match self {
            HostCapability::ReadFile => true,
            _ => false,
        }
    }
}

/// Distinct tiers have distinct tokens, so parsing a tier's token gives it back.
pub proof fn law_tier_tokens_round_trip(a: CapabilityTier, b: CapabilityTier)
    ensures
        a.token() == b.token() <==> a == b,
{
    reveal_strlit("pure");
    reveal_strlit("read_only");
    reveal_strlit("side_effecting");
    assert("pure"@.len() == 4);
    assert("read_only"@.len() == 9);
    assert("side_effecting"@.len() == 14);
}

/// Distinct host operations have distinct tokens, so parsing a token gives the
/// operation back.
pub proof fn law_host_tokens_round_trip(a: HostCapability, b: HostCapability)
    ensures
        a.token() == b.token() <==> a == b,
{
    reveal_strlit("read_file");
    reveal_strlit("write_file");
    reveal_strlit("spawn");
    reveal_strlit("fetch");
    assert("read_file"@.len() == 9);
    assert("write_file"@.len() == 10);
    assert("spawn"@[0] == 's');
    assert("fetch"@[0] == 'f');
    assert("spawn"@.len() == 5);
    assert("fetch"@.len() == 5);
}

/// A declared export: the function name the skill publishes and its documented signature.
#[derive(Debug, Clone, PartialEq, Eq)]
pub struct SkillExport {
    pub name: String,
    pub signature: String,
}

/// The contents of a [`SkillExport`].
#[verifier::ext_equal]
pub struct ExportModel {
    pub name: Seq<char>,
    pub signature: Seq<char>,
}

impl View for SkillExport {
    type V = ExportModel;

    open spec fn view(&self) -> ExportModel {
        ExportModel { name: self.name@, signature: self.signature@ }
    }
}

/// The contents of a sequence of exports.
pub open spec fn export_views(s: Seq<SkillExport>) -> Seq<ExportModel> {
    s.map_values(|e: SkillExport| e@)
}

/// The exact set of host operations a skill is allowed to perform.
///
/// Checks consult `allowed_hosts` directly. The tier is a consistency constraint;
/// it never confers an ambient tier-wide grant.
#[derive(Debug, Clone, PartialEq, Eq)]
pub struct CapabilityManifest {
    pub tier: CapabilityTier,
    pub allowed_hosts: Vec<HostCapability>,
}

/// The contents of a [`CapabilityManifest`].
#[verifier::ext_equal]
pub struct ManifestModel {
    pub tier: CapabilityTier,
    pub allowed_hosts: Seq<HostCapability>,
}

impl View for CapabilityManifest {
    type V = ManifestModel;

    open spec fn view(&self) -> ManifestModel {
        ManifestModel { tier: self.tier, allowed_hosts: self.allowed_hosts@ }
    }
}

/// Errors from artifact construction and identity validation.
#[derive(Debug, PartialEq, Eq)]
pub enum IdentityError {
    CapabilityExceedsTier { tier: CapabilityTier, capability: HostCapability },
    DuplicateCapability(HostCapability),
    DuplicateExport(String),
    EmptyExportName,
    EmptyDescription,
    MalformedId(String),
    IdentityMismatch { claimed: String, computed: String },
    UnsupportedIdentityVersion(u32),
}

/// The contents of an [`IdentityError`].
#[verifier::ext_equal]
pub enum IdentityFault {
    CapabilityExceedsTier { tier: CapabilityTier, capability: HostCapability },
    DuplicateCapability(HostCapability),
    DuplicateExport(Seq<char>),
    EmptyExportName,
    EmptyDescription,
    MalformedId(Seq<char>),
    IdentityMismatch { claimed: Seq<char>, computed: Seq<char> },
    UnsupportedIdentityVersion(u32),
}

impl View for IdentityError {
    type V = IdentityFault;

    open spec fn view(&self) -> IdentityFault {
        match *self {
            IdentityError::CapabilityExceedsTier { tier, capability } => {
                IdentityFault::CapabilityExceedsTier { tier, capability }
            },
            IdentityError::DuplicateCapability(c) => IdentityFault::DuplicateCapability(c),
            IdentityError::DuplicateExport(s) => IdentityFault::DuplicateExport(s@),
            IdentityError::EmptyExportName => IdentityFault::EmptyExportName,
            IdentityError::EmptyDescription => IdentityFault::EmptyDescription,
            IdentityError::MalformedId(s) => IdentityFault::MalformedId(s@),
            IdentityError::IdentityMismatch { claimed, computed } => {
                IdentityFault::IdentityMismatch { claimed: claimed@, computed: computed@ }
            },
            IdentityError::UnsupportedIdentityVersion(v) => {
                IdentityFault::UnsupportedIdentityVersion(v)
            },
        }
    }
}

impl IdentityFault {
    /// The sentence that reports the fault.
    pub open spec fn sentence(self) -> Seq<char> {
        match self {
            IdentityFault::CapabilityExceedsTier { tier, capability } => {
                "capability "@ + capability.token() + " is not permitted at tier "@ + tier.token()
            },
            IdentityFault::DuplicateCapability(c) => {
                "capability "@ + c.token() + " declared more than once"@
            },
            IdentityFault::DuplicateExport(s) => "export "@ + s + " declared more than once"@,
            IdentityFault::EmptyExportName => "export name must not be empty"@,
            IdentityFault::EmptyDescription => "description must not be empty"@,
            IdentityFault::MalformedId(s) => "malformed skill id: "@ + s,
            IdentityFault::IdentityMismatch { claimed, computed } => {
                "identity mismatch: row claims "@ + claimed + " but content hashes to "@ + computed
            },
            IdentityFault::UnsupportedIdentityVersion(v) => {
                "unsupported identity version: "@ + text::decimal(v as nat)
            },
        }
    }
}

impl IdentityError {
    /// The sentence that reports the error.
    pub fn message(&self) -> (r: String)
        ensures
            r@ == self@.sentence(),
    {
        match self {
            IdentityError::CapabilityExceedsTier { tier, capability } => {
                let mut out = text::join3(
                    "capability ",
                    capability.as_token(),
                    " is not permitted at tier ",
                );
                out.append(tier.as_token());
                out
            },
            IdentityError::DuplicateCapability(c) => {
                text::join3("capability ", c.as_token(), " declared more than once")
            },
            IdentityError::DuplicateExport(s) => {
                text::join3("export ", s, " declared more than once")
            },
            IdentityError::EmptyExportName => "export name must not be empty".to_owned(),
            IdentityError::EmptyDescription => "description must not be empty".to_owned(),
            IdentityError::MalformedId(s) => text::join2("malformed skill id: ", s),
            IdentityError::IdentityMismatch { claimed, computed } => {
                let mut out = text::join3(
                    "identity mismatch: row claims ",
                    claimed,
                    " but content hashes to ",
                );
                out.append(computed);
                out
            },
            IdentityError::UnsupportedIdentityVersion(v) => {
                let digits = text::render_u64(*v as u64);
                text::join2("unsupported identity version: ", &digits)
            },
        }
    }
}

/// The first fault of a list of declared operations, from position `i` on: an
/// operation declared before, or one that the tier does not permit.
pub open spec fn manifest_fault_from(
    tier: CapabilityTier,
    hosts: Seq<HostCapability>,
    i: int,
) -> Option<IdentityFault>
    decreases hosts.len() - i,
{
    if i < 0 || i >= hosts.len() {
        None
    } else if hosts.take(i).contains(hosts[i]) {
        Some(IdentityFault::DuplicateCapability(hosts[i]))
    } else if !tier.spec_permits(hosts[i]) {
        Some(IdentityFault::CapabilityExceedsTier { tier, capability: hosts[i] })
    } else {
        manifest_fault_from(tier, hosts, i + 1)
    }
}

impl ManifestModel {
    /// The first fault of the manifest.
    pub open spec fn fault(self) -> Option<IdentityFault> {
        manifest_fault_from(self.tier, self.allowed_hosts, 0)
    }

    pub open spec fn valid(self) -> bool {
        self.fault() is None
    }

    pub open spec fn allows(self, capability: HostCapability) -> bool {
        self.allowed_hosts.contains(capability)
    }

    /// The same manifest with its operations in canonical order.
    pub open spec fn in_order(self) -> ManifestModel {
        ManifestModel { tier: self.tier, allowed_hosts: hosts_in_order(self.allowed_hosts) }
    }
}

proof fn lemma_no_manifest_fault(tier: CapabilityTier, hosts: Seq<HostCapability>, i: int)
    requires
        0 <= i <= hosts.len(),
    ensures
        manifest_fault_from(tier, hosts, i) is None <==> forall|j: int|
            i <= j < hosts.len() ==> tier.spec_permits(#[trigger] hosts[j]) && !hosts.take(
                j,
            ).contains(hosts[j]),
    decreases hosts.len() - i,
{
    if i < hosts.len() {
        lemma_no_manifest_fault(tier, hosts, i + 1);
        let h = hosts[i];
    }
}

/// A manifest is valid exactly when no operation is declared twice and the tier
/// permits each.
pub proof fn law_manifest_validity(manifest: ManifestModel)
    ensures
        manifest.valid() <==> manifest.allowed_hosts.no_duplicates() && forall|i: int|
            0 <= i < manifest.allowed_hosts.len() ==> manifest.tier.spec_permits(
                #[trigger] manifest.allowed_hosts[i],
            ),
{
    let hosts = manifest.allowed_hosts;
    lemma_no_manifest_fault(manifest.tier, hosts, 0);
    if manifest.valid() {
        assert forall|i: int, j: int|
            0 <= i < hosts.len() && 0 <= j < hosts.len() && i != j implies hosts[i] != hosts[j] by {
            if i < j {
                assert(hosts.take(j)[i] == hosts[i]);
                assert(!hosts.take(j).contains(hosts[j]));
            } else {
                assert(hosts.take(i)[j] == hosts[j]);
                assert(!hosts.take(i).contains(hosts[i]));
            }
        }
    } else if hosts.no_duplicates() {
        assert forall|j: int| 0 <= j < hosts.len() implies !hosts.take(j).contains(
            #[trigger] hosts[j],
        ) by {
            if hosts.take(j).contains(hosts[j]) {
                let k = choose|k: int| 0 <= k < j && hosts.take(j)[k] == hosts[j];
                assert(hosts[k] == hosts[j]);
            }
        }
    }
}

/// The operation, where it is declared.
pub open spec fn declared(hosts: Seq<HostCapability>, capability: HostCapability) -> Seq<
    HostCapability,
> {
    if hosts.contains(capability) {
        seq![capability]
    } else {
        Seq::empty()
    }
}

/// The declared operations in the order of [`HostCapability`], each once.
pub open spec fn hosts_in_order(hosts: Seq<HostCapability>) -> Seq<HostCapability> {
    declared(hosts, HostCapability::ReadFile) + declared(hosts, HostCapability::WriteFile)
        + declared(hosts, HostCapability::Spawn) + declared(hosts, HostCapability::Fetch)
}

/// Ordering the operations of a manifest keeps which operations are declared.
pub proof fn lemma_order_keeps_hosts(hosts: Seq<HostCapability>, capability: HostCapability)
    ensures
        hosts_in_order(hosts).contains(capability) <==> hosts.contains(capability),
{
    let a = declared(hosts, HostCapability::ReadFile);
    let b = declared(hosts, HostCapability::WriteFile);
    let c = declared(hosts, HostCapability::Spawn);
    let d = declared(hosts, HostCapability::Fetch);
    let all = hosts_in_order(hosts);
    if hosts.contains(capability) {
        let at: int = match capability {
            HostCapability::ReadFile => 0,
            HostCapability::WriteFile => a.len() as int,
            HostCapability::Spawn => (a.len() + b.len()) as int,
            HostCapability::Fetch => (a.len() + b.len() + c.len()) as int,
        };
        assert(all[at] == capability);
    } else if all.contains(capability) {
        let i = choose|i: int| 0 <= i < all.len() && all[i] == capability;
        if i < a.len() {
            assert(all[i] == a[i]);
        } else if i < a.len() + b.len() {
            assert(all[i] == b[i - a.len()]);
        } else if i < a.len() + b.len() + c.len() {
            assert(all[i] == c[i - a.len() - b.len()]);
        } else {
            assert(all[i] == d[i - a.len() - b.len() - c.len()]);
        }
    }
}

/// Ordering the operations of a manifest keeps it valid.
pub proof fn lemma_order_keeps_validity(manifest: ManifestModel)
    requires
        manifest.valid(),
    ensures
        manifest.in_order().valid(),
{
    law_manifest_validity(manifest);
    law_manifest_validity(manifest.in_order());
    let hosts = manifest.allowed_hosts;
    let all = hosts_in_order(hosts);
    assert forall|i: int| 0 <= i < all.len() implies manifest.tier.spec_permits(
        #[trigger] all[i],
    ) by {
        lemma_order_keeps_hosts(hosts, all[i]);
        assert(all.contains(all[i]));
        let k = choose|k: int| 0 <= k < hosts.len() && hosts[k] == all[i];
        assert(manifest.tier.spec_permits(hosts[k]));
    }
}

/// Two declarations of the same operations in different orders give one manifest.
pub proof fn law_declaration_order_is_irrelevant(a: Seq<HostCapability>, b: Seq<HostCapability>)
    requires
        a.to_multiset() == b.to_multiset(),
    ensures
        hosts_in_order(a) == hosts_in_order(b),
{
    broadcast use vstd::seq_lib::group_to_multiset_ensures;

    assert forall|c: HostCapability| a.contains(c) == b.contains(c) by {
        assert(a.contains(c) <==> a.to_multiset().count(c) > 0);
        assert(b.contains(c) <==> b.to_multiset().count(c) > 0);
    }
}

impl CapabilityManifest {
    /// A manifest declaring nothing.
    pub fn pure() -> (r: CapabilityManifest)
        ensures
            r@ == (ManifestModel {
                tier: CapabilityTier::Pure,
                allowed_hosts: Seq::<HostCapability>::empty(),
            }),
    {
        CapabilityManifest { tier: CapabilityTier::Pure, allowed_hosts: Vec::new() }
    }

    /// Builds and validates a manifest. The operations are kept in order.
    pub fn new(tier: CapabilityTier, allowed_hosts: Vec<HostCapability>) -> (r: Result<
        CapabilityManifest,
        IdentityError,
    >)
        ensures
            match r {
                Ok(manifest) => {
                    &&& (ManifestModel { tier, allowed_hosts: allowed_hosts@ }).valid()
                    &&& manifest@ == (ManifestModel {
                        tier,
                        allowed_hosts: allowed_hosts@,
                    }).in_order()
                },
                Err(e) => (ManifestModel { tier, allowed_hosts: allowed_hosts@ }).fault() == Some(
                    e@,
                ),
            },
    {
        let manifest = CapabilityManifest { tier, allowed_hosts };
        match manifest.validate() {
            Ok(()) => {},
            Err(e) => {
                return Err(e);
            },
        }
        Ok(manifest.ordered())
    }

    /// The same manifest with its operations in canonical order.
    pub fn ordered(&self) -> (r: CapabilityManifest)
        ensures
            r@ == self@.in_order(),
    {
        let mut hosts: Vec<HostCapability> = Vec::new();
        if self.allows(HostCapability::ReadFile) {
            hosts.push(HostCapability::ReadFile);
        }
        if self.allows(HostCapability::WriteFile) {
            hosts.push(HostCapability::WriteFile);
        }
        if self.allows(HostCapability::Spawn) {
            hosts.push(HostCapability::Spawn);
        }
        if self.allows(HostCapability::Fetch) {
            hosts.push(HostCapability::Fetch);
        }
        assert(hosts@ =~= hosts_in_order(self.allowed_hosts@));
        CapabilityManifest { tier: self.tier, allowed_hosts: hosts }
    }

    /// Enforces tier consistency and rejects duplicates.
    pub fn validate(&self) -> (r: Result<(), IdentityError>)
        ensures
            match r {
                Ok(()) => self@.valid(),
                Err(e) => self@.fault() == Some(e@),
            },
    {
        let mut i: usize = 0;
        while i < self.allowed_hosts.len()
            invariant
                i <= self.allowed_hosts@.len(),
                self@.fault() == manifest_fault_from(self.tier, self.allowed_hosts@, i as int),
            decreases self.allowed_hosts@.len() - i,
        {
            let capability = self.allowed_hosts[i];
            if host_declared_before(&self.allowed_hosts, i, capability) {
                return Err(IdentityError::DuplicateCapability(capability));
            }
            if !self.tier.permits(capability) {
                return Err(IdentityError::CapabilityExceedsTier { tier: self.tier, capability });
            }
            i = i + 1;
        }
        Ok(())
    }

    /// Whether `capability` is declared. This is the only authorization question
    /// that is ever asked of a manifest.
    pub fn allows(&self, capability: HostCapability) -> (r: bool)
        ensures
            r == self@.allows(capability),
    {
        let n = self.allowed_hosts.len();
        let r = host_declared_before(&self.allowed_hosts, n, capability);
        assert(self.allowed_hosts@.take(n as int) =~= self.allowed_hosts@);
        r
    }

    /// Whether two manifests have the same contents.
    pub fn same(&self, other: &CapabilityManifest) -> (r: bool)
        ensures
            r == (self@ == other@),
    {
        if self.tier != other.tier || self.allowed_hosts.len() != other.allowed_hosts.len() {
            return false;
        }
        let mut i: usize = 0;
        while i < self.allowed_hosts.len()
            invariant
                i <= self.allowed_hosts@.len(),
                self.allowed_hosts@.len() == other.allowed_hosts@.len(),
                forall|j: int|
                    0 <= j < i ==> #[trigger] self.allowed_hosts@[j] == other.allowed_hosts@[j],
            decreases self.allowed_hosts@.len() - i,
        {
            if self.allowed_hosts[i] != other.allowed_hosts[i] {
                return false;
            }
            i = i + 1;
        }
        assert(self@ =~= other@);
        true
    }

    /// A copy of the manifest.
    pub fn copy(&self) -> (r: CapabilityManifest)
        ensures
            r@ == self@,
    {
        let mut hosts: Vec<HostCapability> = Vec::new();
        let mut i: usize = 0;
        while i < self.allowed_hosts.len()
            invariant
                i <= self.allowed_hosts@.len(),
                hosts@ =~= self.allowed_hosts@.take(i as int),
            decreases self.allowed_hosts@.len() - i,
        {
            hosts.push(self.allowed_hosts[i]);
            i = i + 1;
        }
        assert(self.allowed_hosts@.take(self.allowed_hosts@.len() as int)
            =~= self.allowed_hosts@);
        CapabilityManifest { tier: self.tier, allowed_hosts: hosts }
    }
}

fn host_declared_before(hosts: &Vec<HostCapability>, end: usize, capability: HostCapability) -> (r:
    bool)
    requires
        end <= hosts@.len(),
    ensures
        r == hosts@.take(end as int).contains(capability),
{
    let mut i: usize = 0;
    while i < end
        invariant
            i <= end <= hosts@.len(),
            forall|j: int| 0 <= j < i ==> hosts@[j] != capability,
        decreases end - i,
    {
        if hosts[i] == capability {
            assert(hosts@.take(end as int)[i as int] == capability);
            return true;
        }
        i = i + 1;
    }
    false
}

/// An immutable learned-JS skill revision.
///
/// Construct through [`SkillArtifact::new`], which validates the manifest and
/// computes the canonical identity. A caller-supplied `id` is never trusted; use
/// [`SkillArtifact::verify_identity`] to check a value that came from storage.
#[derive(Debug, Clone, PartialEq, Eq)]
pub struct SkillArtifact {
    pub id: String,
    pub identity_version: u32,
    pub source: String,
    pub description: String,
    pub tags: Vec<String>,
    pub exports: Vec<SkillExport>,
    pub tests: Vec<String>,
    pub capability: CapabilityManifest,
}

/// The contents of a [`SkillArtifact`].
#[verifier::ext_equal]
pub struct ArtifactModel {
    pub id: Seq<char>,
    pub identity_version: u32,
    pub source: Seq<char>,
    pub description: Seq<char>,
    pub tags: Seq<Seq<char>>,
    pub exports: Seq<ExportModel>,
    pub tests: Seq<Seq<char>>,
    pub capability: ManifestModel,
}

impl View for SkillArtifact {
    type V = ArtifactModel;

    open spec fn view(&self) -> ArtifactModel {
        ArtifactModel {
            id: self.id@,
            identity_version: self.identity_version,
            source: self.source@,
            description: self.description@,
            tags: text::views(self.tags@),
            exports: export_views(self.exports@),
            tests: text::views(self.tests@),
            capability: self.capability@,
        }
    }
}

/// A text as a length-prefixed field of its UTF-8 bytes.
pub open spec fn text_field(s: Seq<char>) -> Seq<u8> {
    digest::field(vstd::utf8::encode_utf8(s))
}

/// The fields of a list of texts, one after the other.
pub open spec fn text_fields(s: Seq<Seq<char>>) -> Seq<u8>
    decreases s.len(),
{
    if s.len() == 0 {
        Seq::empty()
    } else {
        text_field(s[0]) + text_fields(s.drop_first())
    }
}

/// A list of texts behind its length.
pub open spec fn text_list(s: Seq<Seq<char>>) -> Seq<u8> {
    digest::u64_le(s.len()) + text_fields(s)
}

/// The names and signatures of exports, alternating.
pub open spec fn export_texts(s: Seq<ExportModel>) -> Seq<Seq<char>>
    decreases s.len(),
{
    if s.len() == 0 {
        Seq::empty()
    } else {
        seq![s[0].name, s[0].signature] + export_texts(s.drop_first())
    }
}

/// The tokens of declared operations.
pub open spec fn host_texts(s: Seq<HostCapability>) -> Seq<Seq<char>> {
    s.map_values(|c: HostCapability| c.token())
}

impl ArtifactModel {
    /// The canonical serialization of the identity-bearing fields.
    pub open spec fn canonical(self) -> Seq<u8> {
        text_field(IDENTITY_DOMAIN@) + digest::u64_le(self.identity_version as nat) + text_field(
            self.source,
        ) + text_field(self.description) + text_list(self.tags) + (digest::u64_le(
            self.exports.len(),
        ) + text_fields(export_texts(self.exports))) + text_list(self.tests) + text_field(
            self.capability.tier.token(),
        ) + text_list(host_texts(self.capability.allowed_hosts))
    }

    /// The identity that the contents hash to.
    pub open spec fn identity(self) -> Seq<char> {
        digest::hex(digest::sha256(self.canonical()))
    }

    /// The first fault that a check of a stored artifact reports, given the identity that
    /// was computed for it.
    pub open spec fn fault_against(self, computed: Seq<char>) -> Option<IdentityFault> {
        if self.identity_version != IDENTITY_VERSION {
            Some(IdentityFault::UnsupportedIdentityVersion(self.identity_version))
        } else if !digest::is_full_hex(self.id) {
            Some(IdentityFault::MalformedId(self.id))
        } else if computed != self.id {
            Some(IdentityFault::IdentityMismatch { claimed: self.id, computed })
        } else {
            self.capability.fault()
        }
    }

    /// The first fault that a check of a stored artifact reports.
    pub open spec fn stored_fault(self) -> Option<IdentityFault> {
        self.fault_against(self.identity())
    }

    /// Every length fits the eight bytes that hold it.
    pub open spec fn fits(self) -> bool {
        &&& vstd::utf8::encode_utf8(self.source).len() <= u64::MAX
        &&& vstd::utf8::encode_utf8(self.description).len() <= u64::MAX
        &&& texts_fit(self.tags)
        &&& self.exports.len() <= u64::MAX
        &&& texts_fit(export_texts(self.exports))
        &&& texts_fit(self.tests)
        &&& self.capability.allowed_hosts.len() <= u64::MAX
    }
}

/// Every length of a list of texts fits the eight bytes that hold it.
pub open spec fn texts_fit(s: Seq<Seq<char>>) -> bool {
    s.len() <= u64::MAX && forall|i: int|
        0 <= i < s.len() ==> vstd::utf8::encode_utf8(#[trigger] s[i]).len() <= u64::MAX
}

/// The first fault of a list of exports, from position `i` on: a blank name, or a
/// name declared before.
pub open spec fn export_fault_from(exports: Seq<ExportModel>, i: int) -> Option<IdentityFault>
    decreases exports.len() - i,
{
    if i < 0 || i >= exports.len() {
        None
    } else if text::is_blank(exports[i].name) {
        Some(IdentityFault::EmptyExportName)
    } else if export_named_before(exports, i) {
        Some(IdentityFault::DuplicateExport(exports[i].name))
    } else {
        export_fault_from(exports, i + 1)
    }
}

/// An earlier export has the name of the export at `i`.
pub open spec fn export_named_before(exports: Seq<ExportModel>, i: int) -> bool {
    exists|j: int| 0 <= j < i && #[trigger] exports[j].name == exports[i].name
}

/// The first fault that construction reports.
pub open spec fn construction_fault(
    description: Seq<char>,
    exports: Seq<ExportModel>,
    capability: ManifestModel,
) -> Option<IdentityFault> {
    if !capability.valid() {
        capability.fault()
    } else if text::is_blank(description) {
        Some(IdentityFault::EmptyDescription)
    } else {
        export_fault_from(exports, 0)
    }
}

fn same_exports(a: &Vec<SkillExport>, b: &Vec<SkillExport>) -> (r: bool)
    ensures
        r == (export_views(a@) == export_views(b@)),
{
    assert(export_views(a@).len() == a@.len());
    assert(export_views(b@).len() == b@.len());
    if a.len() != b.len() {
        return false;
    }
    let mut i: usize = 0;
    while i < a.len()
        invariant
            i <= a@.len(),
            a@.len() == b@.len(),
            forall|j: int|
                0 <= j < i ==> #[trigger] export_views(a@)[j] == export_views(b@)[j],
        decreases a@.len() - i,
    {
        proof {
            assert(export_views(a@)[i as int] == a@[i as int]@);
            assert(export_views(b@)[i as int] == b@[i as int]@);
        }
        if !text::same(&a[i].name, &b[i].name) || !text::same(&a[i].signature, &b[i].signature) {
            return false;
        }
        i = i + 1;
    }
    assert(export_views(a@) =~= export_views(b@));
    true
}

fn clone_exports(v: &Vec<SkillExport>) -> (r: Vec<SkillExport>)
    ensures
        export_views(r@) == export_views(v@),
{
    let mut out: Vec<SkillExport> = Vec::new();
    let mut i: usize = 0;
    while i < v.len()
        invariant
            i <= v@.len(),
            export_views(out@) =~= export_views(v@).take(i as int),
        decreases v@.len() - i,
    {
        let ghost before = export_views(out@);
        let item = SkillExport { name: v[i].name.clone(), signature: v[i].signature.clone() };
        assert(item@ == export_views(v@)[i as int]);
        out.push(item);
        assert(export_views(out@) =~= before.push(item@));
        i = i + 1;
    }
    assert(export_views(v@).take(v@.len() as int) =~= export_views(v@));
    out
}

fn push_text_fields(out: &mut Vec<u8>, texts: &Vec<String>)
    ensures
        final(out)@ == old(out)@ + text_fields(text::views(texts@)),
{
    let ghost all = text::views(texts@);
    let mut i: usize = 0;
    proof {
        assert(all.skip(0) =~= all);
    }
    while i < texts.len()
        invariant
            i <= texts@.len(),
            all == text::views(texts@),
            out@ + text_fields(all.skip(i as int)) == old(out)@ + text_fields(all),
        decreases texts@.len() - i,
    {
        let ghost before = out@;
        digest::push_field(out, texts[i].as_str().as_bytes());
        proof {
            assert(all.skip(i as int)[0] == texts@[i as int]@);
            assert(all.skip(i as int).drop_first() =~= all.skip(i + 1));
            assert(out@ + text_fields(all.skip(i + 1)) =~= before + text_fields(all.skip(i as int)));
        }
        i = i + 1;
    }
    proof {
        assert(all.skip(i as int).len() == 0);
        assert(out@ + Seq::<u8>::empty() =~= out@);
    }
}

fn push_export_fields(out: &mut Vec<u8>, exports: &Vec<SkillExport>)
    ensures
        final(out)@ == old(out)@ + text_fields(export_texts(export_views(exports@))),
{
    let ghost all = export_views(exports@);
    let mut i: usize = 0;
    proof {
        assert(all.skip(0) =~= all);
    }
    while i < exports.len()
        invariant
            i <= exports@.len(),
            all == export_views(exports@),
            out@ + text_fields(export_texts(all.skip(i as int))) == old(out)@ + text_fields(
                export_texts(all),
            ),
        decreases exports@.len() - i,
    {
        let ghost before = out@;
        digest::push_field(out, exports[i].name.as_str().as_bytes());
        digest::push_field(out, exports[i].signature.as_str().as_bytes());
        proof {
            let here = all.skip(i as int);
            let rest = all.skip(i + 1);
            assert(here[0] == exports@[i as int]@);
            assert(here.drop_first() =~= rest);
            let texts = export_texts(here);
            assert(texts.drop_first() =~= seq![here[0].signature] + export_texts(rest));
            assert(texts.drop_first().drop_first() =~= export_texts(rest));
            assert(texts[0] == here[0].name);
            assert(texts.drop_first()[0] == here[0].signature);
            assert(text_fields(texts.drop_first()) =~= text_field(here[0].signature) + text_fields(
                export_texts(rest),
            ));
            assert(text_fields(texts) =~= text_field(here[0].name) + (text_field(here[0].signature)
                + text_fields(export_texts(rest))));
            assert(out@ + text_fields(export_texts(rest)) =~= before + text_fields(texts));
        }
        i = i + 1;
    }
    proof {
        assert(all.skip(i as int).len() == 0);
        assert(export_texts(all.skip(i as int)).len() == 0);
        assert(out@ + Seq::<u8>::empty() =~= out@);
    }
}

fn push_host_fields(out: &mut Vec<u8>, hosts: &Vec<HostCapability>)
    ensures
        final(out)@ == old(out)@ + text_fields(host_texts(hosts@)),
{
    let ghost all = host_texts(hosts@);
    let mut i: usize = 0;
    proof {
        assert(all.skip(0) =~= all);
    }
    while i < hosts.len()
        invariant
            i <= hosts@.len(),
            all == host_texts(hosts@),
            out@ + text_fields(all.skip(i as int)) == old(out)@ + text_fields(all),
        decreases hosts@.len() - i,
    {
        let ghost before = out@;
        digest::push_field(out, hosts[i].as_token().as_bytes());
        proof {
            assert(all.skip(i as int)[0] == hosts@[i as int].token());
            assert(all.skip(i as int).drop_first() =~= all.skip(i + 1));
            assert(out@ + text_fields(all.skip(i + 1)) =~= before + text_fields(all.skip(i as int)));
        }
        i = i + 1;
    }
    proof {
        assert(all.skip(i as int).len() == 0);
        assert(out@ + Seq::<u8>::empty() =~= out@);
    }
}

impl SkillArtifact {
    /// Validates the inputs and computes the canonical identity.
    ///
    /// Tags are normalized (trimmed, lowercased, deduplicated, sorted) before
    /// hashing, so reordering tags does not mint a new identity. Source, tests
    /// and description keep their exact bytes.
    pub fn new(
        source: String,
        description: String,
        tags: Vec<String>,
        exports: Vec<SkillExport>,
        tests: Vec<String>,
        capability: CapabilityManifest,
    ) -> (r: Result<SkillArtifact, IdentityError>)
        ensures
            match r {
                Ok(artifact) => {
                    &&& construction_fault(
                        description@,
                        export_views(exports@),
                        capability@,
                    ) is None
                    &&& artifact@ == (ArtifactModel {
                        id: artifact@.identity(),
                        identity_version: IDENTITY_VERSION,
                        source: source@,
                        description: description@,
                        tags: normalized_tags(text::views(tags@)),
                        exports: export_views(exports@),
                        tests: text::views(tests@),
                        capability: capability@.in_order(),
                    })
                    &&& digest::is_full_lower_hex(artifact@.id)
                    &&& artifact@.stored_fault() is None
                    &&& folds_ascii(tags@)
                },
                Err(e) => construction_fault(
                    description@,
                    export_views(exports@),
                    capability@,
                ) == Some(e@),
            },
    {
        match capability.validate() {
            Ok(()) => {},
            Err(e) => {
                return Err(e);
            },
        }
        if text::blank(&description) {
            return Err(IdentityError::EmptyDescription);
        }
        let ghost models = export_views(exports@);
        let mut i: usize = 0;
        while i < exports.len()
            invariant
                i <= exports@.len(),
                models == export_views(exports@),
                export_fault_from(models, 0) == export_fault_from(models, i as int),
                capability@.valid(),
                !text::is_blank(description@),
            decreases exports@.len() - i,
        {
            assert(models[i as int] == exports@[i as int]@);
            if text::blank(&exports[i].name) {
                return Err(IdentityError::EmptyExportName);
            }
            let mut j: usize = 0;
            while j < i
                invariant
                    j <= i < exports@.len(),
                    models == export_views(exports@),
                    export_fault_from(models, 0) == export_fault_from(models, i as int),
                    capability@.valid(),
                    !text::is_blank(description@),
                    !text::is_blank(models[i as int].name),
                    forall|k: int| 0 <= k < j ==> #[trigger] models[k].name != models[i as int].name,
                decreases i - j,
            {
                assert(models[j as int] == exports@[j as int]@);
                assert(models[i as int] == exports@[i as int]@);
                if text::same(&exports[j].name, &exports[i].name) {
                    assert(models[j as int].name == models[i as int].name);
                    assert(export_named_before(models, i as int));
                    return Err(IdentityError::DuplicateExport(exports[i].name.clone()));
                }
                j = j + 1;
            }
            assert(!export_named_before(models, i as int));
            i = i + 1;
        }
        let tags = normalize_tags(tags);
        proof {
            lemma_order_keeps_validity(capability@);
        }
        let capability = capability.ordered();
        let mut artifact = SkillArtifact {
            id: String::new(),
            identity_version: IDENTITY_VERSION,
            source,
            description,
            tags,
            exports,
            tests,
            capability,
        };
        let ghost unnamed = artifact@;
        let id = artifact.compute_identity();
        artifact.id = id;
        proof {
            law_identity_ignores_claimed_id(unnamed, id@);
            assert(artifact@ == (ArtifactModel { id: id@, ..unnamed }));
            assert forall|i: int| 0 <= i < id@.len() implies digest::is_hex_digit(
                #[trigger] id@[i],
            ) by {
                assert(digest::is_lower_hex_digit(id@[i]));
            }
        }
        Ok(artifact)
    }

    /// Computes the canonical identity of the identity-bearing fields. `id` is not
    /// consulted, so a stored row can be checked for tampering.
    pub fn compute_identity(&self) -> (r: String)
        ensures
            r@ == self@.identity(),
            digest::is_full_lower_hex(r@),
    {
        let mut canonical: Vec<u8> = Vec::new();
        digest::push_field(&mut canonical, IDENTITY_DOMAIN.as_bytes());
        digest::push_u64(&mut canonical, self.identity_version as u64);
        digest::push_field(&mut canonical, self.source.as_str().as_bytes());
        digest::push_field(&mut canonical, self.description.as_str().as_bytes());
        digest::push_u64(&mut canonical, self.tags.len() as u64);
        push_text_fields(&mut canonical, &self.tags);
        digest::push_u64(&mut canonical, self.exports.len() as u64);
        push_export_fields(&mut canonical, &self.exports);
        digest::push_u64(&mut canonical, self.tests.len() as u64);
        push_text_fields(&mut canonical, &self.tests);
        digest::push_field(&mut canonical, self.capability.tier.as_token().as_bytes());
        digest::push_u64(&mut canonical, self.capability.allowed_hosts.len() as u64);
        push_host_fields(&mut canonical, &self.capability.allowed_hosts);
        proof {
            assert(canonical@ =~= self@.canonical());
        }
        let bytes = digest::sha256_bytes(&canonical);
        proof {
            digest::lemma_hex_is_full(bytes@);
        }
        digest::hex_lower(&bytes)
    }

    /// Recomputes the identity and compares it against the stored `id`.
    pub fn verify_identity(&self) -> (r: Result<(), IdentityError>)
        ensures
            match r {
                Ok(()) => self@.stored_fault() is None,
                Err(e) => self@.stored_fault() == Some(e@),
            },
    {
        self.check_against(self.compute_identity())
    }

    /// Compares an identity that was computed against the stored `id`.
    pub fn check_against(&self, computed: String) -> (r: Result<(), IdentityError>)
        ensures
            match r {
                Ok(()) => self@.fault_against(computed@) is None,
                Err(e) => self@.fault_against(computed@) == Some(e@),
            },
    {
        if self.identity_version != IDENTITY_VERSION {
            return Err(IdentityError::UnsupportedIdentityVersion(self.identity_version));
        }
        if !digest::full_hex(&self.id) {
            return Err(IdentityError::MalformedId(self.id.clone()));
        }
        if !text::same(&computed, &self.id) {
            return Err(IdentityError::IdentityMismatch { claimed: self.id.clone(), computed });
        }
        self.capability.validate()
    }

    /// Whether two artifacts have the same contents.
    pub fn same(&self, other: &SkillArtifact) -> (r: bool)
        ensures
            r == (self@ == other@),
    {
        let r = text::same(&self.id, &other.id) && self.identity_version == other.identity_version
            && text::same(&self.source, &other.source) && text::same(
            &self.description,
            &other.description,
        ) && text::same_texts(&self.tags, &other.tags) && same_exports(
            &self.exports,
            &other.exports,
        ) && text::same_texts(&self.tests, &other.tests) && self.capability.same(
            &other.capability,
        );
        assert(r ==> self@ =~= other@);
        r
    }

    /// A copy of the artifact.
    pub fn copy(&self) -> (r: SkillArtifact)
        ensures
            r@ == self@,
    {
        SkillArtifact {
            id: self.id.clone(),
            identity_version: self.identity_version,
            source: self.source.clone(),
            description: self.description.clone(),
            tags: text::clone_strings(&self.tags),
            exports: clone_exports(&self.exports),
            tests: text::clone_strings(&self.tests),
            capability: self.capability.copy(),
        }
    }

    /// The artifact with the tests of its predecessor in place of its own: what is tried
    /// where a replacement has to pass what it inherits.
    pub fn with_tests_of(&self, predecessor: &SkillArtifact) -> (r: SkillArtifact)
        ensures
            r@ == (ArtifactModel { tests: predecessor@.tests, ..self@ }),
    {
        let mut subject = self.copy();
        subject.tests = text::clone_strings(&predecessor.tests);
        subject
    }
}

/// One tag trimmed and lowercased.
pub open spec fn folded_tag(tag: Seq<char>) -> Seq<char> {
    text::lowercased(text::trimmed(tag))
}

/// The tags trimmed and lowercased, without those that fold to nothing.
pub open spec fn folded_tags(tags: Seq<Seq<char>>) -> Seq<Seq<char>>
    decreases tags.len(),
{
    if tags.len() == 0 {
        Seq::empty()
    } else {
        let before = folded_tags(tags.drop_last());
        let tag = folded_tag(tags.last());
        if tag.len() == 0 {
            before
        } else {
            before.push(tag)
        }
    }
}

/// One of the tags folds to `tag`.
pub open spec fn folds_to(tags: Seq<Seq<char>>, tag: Seq<char>) -> bool {
    exists|i: int| 0 <= i < tags.len() && folded_tag(#[trigger] tags[i]) == tag
}

/// Tags trimmed, lowercased, without empties, sorted, each once.
pub open spec fn normalized_tags(tags: Seq<Seq<char>>) -> Seq<Seq<char>> {
    text::without_repeats(text::sorted_texts(folded_tags(tags)))
}

/// The texts that are not empty.
pub open spec fn filled(texts: Seq<Seq<char>>) -> Seq<Seq<char>>
    decreases texts.len(),
{
    if texts.len() == 0 {
        Seq::empty()
    } else if texts.last().len() == 0 {
        filled(texts.drop_last())
    } else {
        filled(texts.drop_last()).push(texts.last())
    }
}

proof fn lemma_folded_tags(tags: Seq<Seq<char>>)
    ensures
        folded_tags(tags) == filled(tags.map_values(|tag: Seq<char>| folded_tag(tag))),
    decreases tags.len(),
{
    let all = tags.map_values(|tag: Seq<char>| folded_tag(tag));
    if tags.len() > 0 {
        lemma_folded_tags(tags.drop_last());
        assert(all.drop_last() =~= tags.drop_last().map_values(|tag: Seq<char>| folded_tag(tag)));
    }
}

/// Settles folded tags: drop empties, sort, deduplicate.
pub fn settle_tags(folded: &Vec<String>) -> (r: Vec<String>)
    ensures
        text::views(r@) == text::without_repeats(
            text::sorted_texts(filled(text::views(folded@))),
        ),
{
    let ghost given = text::views(folded@);
    let mut kept: Vec<String> = Vec::new();
    let mut i: usize = 0;
    proof {
        assert(given.take(0).len() == 0);
        assert(text::views(kept@) =~= filled(given.take(0)));
    }
    while i < folded.len()
        invariant
            i <= folded@.len(),
            given == text::views(folded@),
            text::views(kept@) == filled(given.take(i as int)),
        decreases folded@.len() - i,
    {
        let ghost before = text::views(kept@);
        proof {
            assert(given.take(i + 1).drop_last() =~= given.take(i as int));
            assert(given.take(i + 1).last() == folded@[i as int]@);
        }
        if !folded[i].as_str().is_empty() {
            let tag = folded[i].clone();
            kept.push(tag);
            assert(text::views(kept@) =~= before.push(tag@));
        }
        i = i + 1;
    }
    assert(given.take(given.len() as int) =~= given);
    let sorted = text::sort_strings(kept);
    text::dedup(sorted)
}

/// On a tag of ASCII characters, folding is folding of the capitals, and what comes of it
/// stays as it is in lowercase.
pub open spec fn folds_as_ascii(tag: Seq<char>) -> bool {
    text::is_ascii_text(text::trimmed(tag)) ==> folded_tag(tag) == text::ascii_lower(
        text::trimmed(tag),
    ) && text::lowercased(folded_tag(tag)) == folded_tag(tag)
}

/// Tags of ASCII characters fold as such.
pub open spec fn folds_ascii(tags: Seq<String>) -> bool {
    forall|i: int| 0 <= i < tags.len() ==> folds_as_ascii(#[trigger] tags[i]@)
}

/// Tags that stay what they are when they are normalized once more.
pub open spec fn settled(tags: Seq<Seq<char>>) -> bool {
    forall|i: int| 0 <= i < tags.len() ==> folded_tag(#[trigger] tags[i]) == tags[i]
}

/// Tags of ASCII characters.
pub open spec fn ascii_tags(tags: Seq<Seq<char>>) -> bool {
    forall|i: int| 0 <= i < tags.len() ==> text::is_ascii_text(#[trigger] tags[i])
}

/// Trims and lowercases each tag.
pub(crate) fn fold_tags(tags: &Vec<String>) -> (r: Vec<String>)
    ensures
        text::views(r@) == text::views(tags@).map_values(|tag: Seq<char>| folded_tag(tag)),
        folds_ascii(tags@),
{
    let ghost wanted = text::views(tags@).map_values(|tag: Seq<char>| folded_tag(tag));
    let mut folded: Vec<String> = Vec::new();
    let mut i: usize = 0;
    while i < tags.len()
        invariant
            i <= tags@.len(),
            wanted == text::views(tags@).map_values(|tag: Seq<char>| folded_tag(tag)),
            text::views(folded@) =~= wanted.take(i as int),
            forall|j: int| 0 <= j < i ==> folds_as_ascii(#[trigger] tags@[j]@),
        decreases tags@.len() - i,
    {
        let ghost before = text::views(folded@);
        let trimmed = text::trim(&tags[i]);
        let tag = text::to_lowercase(&trimmed);
        assert(tag@ == wanted[i as int]);
        folded.push(tag);
        assert(text::views(folded@) =~= before.push(tag@));
        i = i + 1;
    }
    assert(wanted.take(wanted.len() as int) =~= wanted);
    folded
}

/// Normalizes tags for identity: trim, lowercase, drop empties, deduplicate, sort.
pub fn normalize_tags(tags: Vec<String>) -> (r: Vec<String>)
    ensures
        text::views(r@) == normalized_tags(text::views(tags@)),
        folds_ascii(tags@),
{
    proof {
        lemma_folded_tags(text::views(tags@));
    }
    let folded = fold_tags(&tags);
    settle_tags(&folded)
}

proof fn lemma_text_fields_prefix(x: Seq<Seq<char>>, s: Seq<u8>, y: Seq<Seq<char>>, t: Seq<u8>)
    requires
        x.len() == y.len(),
        texts_fit(x),
        texts_fit(y),
        text_fields(x) + s == text_fields(y) + t,
    ensures
        x == y,
        s == t,
    decreases x.len(),
{
    if x.len() == 0 {
        assert(text_fields(x) + s =~= s);
        assert(text_fields(y) + t =~= t);
        assert(x =~= y);
    } else {
        let xr = x.drop_first();
        let yr = y.drop_first();
        assert(text_fields(x) + s =~= text_field(x[0]) + (text_fields(xr) + s));
        assert(text_fields(y) + t =~= text_field(y[0]) + (text_fields(yr) + t));
        digest::lemma_field_prefix(
            vstd::utf8::encode_utf8(x[0]),
            text_fields(xr) + s,
            vstd::utf8::encode_utf8(y[0]),
            text_fields(yr) + t,
        );
        digest::lemma_utf8_injective(x[0], y[0]);
        assert forall|i: int| 0 <= i < xr.len() implies vstd::utf8::encode_utf8(
            #[trigger] xr[i],
        ).len() <= u64::MAX by {
            assert(xr[i] == x[i + 1]);
        }
        assert forall|i: int| 0 <= i < yr.len() implies vstd::utf8::encode_utf8(
            #[trigger] yr[i],
        ).len() <= u64::MAX by {
            assert(yr[i] == y[i + 1]);
        }
        lemma_text_fields_prefix(xr, s, yr, t);
        assert(x =~= seq![x[0]] + xr);
        assert(y =~= seq![y[0]] + yr);
    }
}

proof fn lemma_text_list_prefix(x: Seq<Seq<char>>, s: Seq<u8>, y: Seq<Seq<char>>, t: Seq<u8>)
    requires
        texts_fit(x),
        texts_fit(y),
        text_list(x) + s == text_list(y) + t,
    ensures
        x == y,
        s == t,
{
    assert(text_list(x) + s =~= digest::u64_le(x.len()) + (text_fields(x) + s));
    assert(text_list(y) + t =~= digest::u64_le(y.len()) + (text_fields(y) + t));
    digest::lemma_u64_le_prefix(x.len(), text_fields(x) + s, y.len(), text_fields(y) + t);
    lemma_text_fields_prefix(x, s, y, t);
}

proof fn lemma_text_field_prefix(x: Seq<char>, s: Seq<u8>, y: Seq<char>, t: Seq<u8>)
    requires
        vstd::utf8::encode_utf8(x).len() <= u64::MAX,
        vstd::utf8::encode_utf8(y).len() <= u64::MAX,
        text_field(x) + s == text_field(y) + t,
    ensures
        x == y,
        s == t,
{
    digest::lemma_field_prefix(vstd::utf8::encode_utf8(x), s, vstd::utf8::encode_utf8(y), t);
    digest::lemma_utf8_injective(x, y);
}

proof fn lemma_export_texts(x: Seq<ExportModel>, i: int)
    requires
        0 <= i < x.len(),
    ensures
        export_texts(x).len() == 2 * x.len(),
        x[i].name == export_texts(x)[2 * i],
        x[i].signature == export_texts(x)[2 * i + 1],
    decreases x.len(),
{
    let rest = x.drop_first();
    if i > 0 {
        lemma_export_texts(rest, i - 1);
    } else if rest.len() > 0 {
        lemma_export_texts(rest, 0);
    }
}

/// The canonical serialization, read from the left.
proof fn lemma_canonical_nested(a: ArtifactModel)
    ensures
        a.canonical() == text_field(IDENTITY_DOMAIN@) + (digest::u64_le(a.identity_version as nat)
            + (text_field(a.source) + (text_field(a.description) + (text_list(a.tags) + (
        digest::u64_le(a.exports.len()) + (text_fields(export_texts(a.exports)) + (text_list(
            a.tests,
        ) + (text_field(a.capability.tier.token()) + text_list(
            host_texts(a.capability.allowed_hosts),
        ))))))))),
{
    let d = text_field(IDENTITY_DOMAIN@);
    let v = digest::u64_le(a.identity_version as nat);
    let s = text_field(a.source);
    let e = text_field(a.description);
    let t = text_list(a.tags);
    let n = digest::u64_le(a.exports.len());
    let x = text_fields(export_texts(a.exports));
    let q = text_list(a.tests);
    let c = text_field(a.capability.tier.token());
    let h = text_list(host_texts(a.capability.allowed_hosts));
    digest::lemma_assoc(d + v + s + e + t + (n + x) + q, c, h);
    digest::lemma_assoc(d + v + s + e + t + (n + x), q, c + h);
    digest::lemma_assoc(d + v + s + e + t, n + x, q + (c + h));
    digest::lemma_assoc(n, x, q + (c + h));
    digest::lemma_assoc(d + v + s + e, t, n + (x + (q + (c + h))));
    digest::lemma_assoc(d + v + s, e, t + (n + (x + (q + (c + h)))));
    digest::lemma_assoc(d + v, s, e + (t + (n + (x + (q + (c + h))))));
    digest::lemma_assoc(d, v, s + (e + (t + (n + (x + (q + (c + h)))))));
}

proof fn lemma_short_ascii_fits(s: Seq<char>)
    requires
        s.len() <= 64,
        vstd::utf8::is_ascii_chars(s),
    ensures
        vstd::utf8::encode_utf8(s).len() <= u64::MAX,
{
    vstd::utf8::is_ascii_chars_encode_utf8(s);
}

proof fn lemma_tokens_fit(tier: CapabilityTier, hosts: Seq<HostCapability>)
    requires
        hosts.len() <= u64::MAX,
    ensures
        vstd::utf8::encode_utf8(tier.token()).len() <= u64::MAX,
        texts_fit(host_texts(hosts)),
        vstd::utf8::encode_utf8(IDENTITY_DOMAIN@).len() <= u64::MAX,
{
    reveal_strlit("pure");
    reveal_strlit("read_only");
    reveal_strlit("side_effecting");
    reveal_strlit("read_file");
    reveal_strlit("write_file");
    reveal_strlit("spawn");
    reveal_strlit("fetch");
    reveal_strlit("mini-agent/skill-identity");
    lemma_short_ascii_fits(tier.token());
    lemma_short_ascii_fits(IDENTITY_DOMAIN@);
    assert forall|i: int| 0 <= i < host_texts(hosts).len() implies vstd::utf8::encode_utf8(
        #[trigger] host_texts(hosts)[i],
    ).len() <= u64::MAX by {
        lemma_short_ascii_fits(hosts[i].token());
    }
}

/// No two distinct artifacts serialize to the same byte string: the canonical
/// bytes determine every identity-bearing field.
pub proof fn law_canonical_serialization_is_injective(a: ArtifactModel, b: ArtifactModel)
    requires
        a.fits(),
        b.fits(),
        a.canonical() == b.canonical(),
    ensures
        a == (ArtifactModel { id: a.id, ..b }),
{
    let (ac, bc) = (a.capability, b.capability);
    lemma_tokens_fit(ac.tier, ac.allowed_hosts);
    lemma_tokens_fit(bc.tier, bc.allowed_hosts);
    let (ah, bh) = (host_texts(ac.allowed_hosts), host_texts(bc.allowed_hosts));
    let (ae, be) = (export_texts(a.exports), export_texts(b.exports));
    let domain = IDENTITY_DOMAIN@;
    // The serialization read from the left, one suffix for each field.
    let (a8, b8) = (text_list(ah), text_list(bh));
    let (a7, b7) = (text_field(ac.tier.token()) + a8, text_field(bc.tier.token()) + b8);
    let (a6, b6) = (text_list(a.tests) + a7, text_list(b.tests) + b7);
    let (a5, b5) = (text_fields(ae) + a6, text_fields(be) + b6);
    let (a4, b4) = (digest::u64_le(a.exports.len()) + a5, digest::u64_le(b.exports.len()) + b5);
    let (a3, b3) = (text_list(a.tags) + a4, text_list(b.tags) + b4);
    let (a2, b2) = (text_field(a.description) + a3, text_field(b.description) + b3);
    let (a1, b1) = (text_field(a.source) + a2, text_field(b.source) + b2);
    let (a0, b0) = (
        digest::u64_le(a.identity_version as nat) + a1,
        digest::u64_le(b.identity_version as nat) + b1,
    );
    lemma_canonical_nested(a);
    lemma_canonical_nested(b);
    lemma_text_field_prefix(domain, a0, domain, b0);
    digest::lemma_u64_le_prefix(a.identity_version as nat, a1, b.identity_version as nat, b1);
    lemma_text_field_prefix(a.source, a2, b.source, b2);
    lemma_text_field_prefix(a.description, a3, b.description, b3);
    lemma_text_list_prefix(a.tags, a4, b.tags, b4);
    digest::lemma_u64_le_prefix(a.exports.len(), a5, b.exports.len(), b5);
    if a.exports.len() > 0 {
        lemma_export_texts(a.exports, 0);
        lemma_export_texts(b.exports, 0);
    }
    lemma_text_fields_prefix(ae, a6, be, b6);
    assert forall|i: int| 0 <= i < a.exports.len() implies #[trigger] a.exports[i]
        == b.exports[i] by {
        lemma_export_texts(a.exports, i);
        lemma_export_texts(b.exports, i);
    }
    assert(a.exports =~= b.exports);
    lemma_text_list_prefix(a.tests, a7, b.tests, b7);
    lemma_text_field_prefix(ac.tier.token(), a8, bc.tier.token(), b8);
    law_tier_tokens_round_trip(ac.tier, bc.tier);
    assert(a8 + Seq::<u8>::empty() =~= a8);
    assert(b8 + Seq::<u8>::empty() =~= b8);
    lemma_text_list_prefix(ah, Seq::empty(), bh, Seq::empty());
    assert forall|i: int| 0 <= i < ac.allowed_hosts.len() implies #[trigger] ac.allowed_hosts[i]
        == bc.allowed_hosts[i] by {
        assert(ah[i] == bh[i]);
        law_host_tokens_round_trip(ac.allowed_hosts[i], bc.allowed_hosts[i]);
    }
    assert(ac.allowed_hosts =~= bc.allowed_hosts);
}

/// The identity does not depend on the `id` that a row claims.
pub proof fn law_identity_ignores_claimed_id(a: ArtifactModel, claimed: Seq<char>)
    ensures
        (ArtifactModel { id: claimed, ..a }).identity() == a.identity(),
{
}

/// Two artifacts have the same identity exactly where they agree on every field that is
/// hashed, which is every field but the id. The hash is taken to tell the two
/// serializations apart.
pub proof fn law_identities_name_contents(a: ArtifactModel, b: ArtifactModel)
    requires
        a.fits(),
        b.fits(),
        digest::told_apart(a.canonical(), b.canonical()),
    ensures
        a.identity() == b.identity() <==> a == (ArtifactModel { id: a.id, ..b }),
{
    if a.identity() == b.identity() {
        digest::lemma_hex_injective(
            digest::sha256(a.canonical()),
            digest::sha256(b.canonical()),
        );
        law_canonical_serialization_is_injective(a, b);
    }
    if a == (ArtifactModel { id: a.id, ..b }) {
        assert(a.canonical() == b.canonical());
    }
}

/// A stored artifact of which a field was changed under its id is refused: as a mismatch
/// that names both identities or, where the version is what was changed, as unsupported.
/// The hash is taken to tell the two serializations apart.
pub proof fn law_changed_contents_are_refused(stored: ArtifactModel, changed: ArtifactModel)
    requires
        stored.fits(),
        changed.fits(),
        stored.stored_fault() is None,
        changed.id == stored.id,
        changed != stored,
        digest::told_apart(stored.canonical(), changed.canonical()),
    ensures
        changed.stored_fault() == if changed.identity_version != IDENTITY_VERSION {
            Some(IdentityFault::UnsupportedIdentityVersion(changed.identity_version))
        } else {
            Some(
                IdentityFault::IdentityMismatch {
                    claimed: stored.id,
                    computed: changed.identity(),
                },
            )
        },
{
    law_identities_name_contents(stored, changed);
}

proof fn lemma_folded_tags_contain(tags: Seq<Seq<char>>, tag: Seq<char>)
    ensures
        folded_tags(tags).contains(tag) <==> tag.len() > 0 && folds_to(tags, tag),
    decreases tags.len(),
{
    if tags.len() > 0 {
        let before = folded_tags(tags.drop_last());
        let last = folded_tag(tags.last());
        lemma_folded_tags_contain(tags.drop_last(), tag);
        if folded_tags(tags).contains(tag) {
            let k = choose|k: int| 0 <= k < folded_tags(tags).len() && folded_tags(tags)[k] == tag;
            if last.len() == 0 || k < before.len() {
                assert(before[k] == tag);
                assert(before.contains(tag));
                let i = choose|i: int|
                    0 <= i < tags.len() - 1 && folded_tag(#[trigger] tags.drop_last()[i]) == tag;
                assert(tags[i] == tags.drop_last()[i]);
            } else {
                assert(folded_tag(tags[tags.len() - 1]) == tag);
            }
        }
        if tag.len() > 0 && exists|i: int|
            0 <= i < tags.len() && folded_tag(#[trigger] tags[i]) == tag {
            let i = choose|i: int| 0 <= i < tags.len() && folded_tag(#[trigger] tags[i]) == tag;
            if i < tags.len() - 1 {
                assert(tags.drop_last()[i] == tags[i]);
                assert(before.contains(tag));
                let k = choose|k: int| 0 <= k < before.len() && before[k] == tag;
                assert(folded_tags(tags)[k] == tag);
            } else {
                assert(folded_tags(tags)[before.len() as int] == tag);
            }
        }
    }
}

proof fn lemma_without_repeats(s: Seq<Seq<char>>)
    requires
        sorted_by(s, text::lex_order()),
    ensures
        sorted_by(text::without_repeats(s), text::lex_order()),
        text::without_repeats(s).no_duplicates(),
        forall|x: Seq<char>| #[trigger] text::without_repeats(s).contains(x) <==> s.contains(x),
        s.len() > 0 ==> text::without_repeats(s).len() > 0 && text::without_repeats(s).last() == s.last(),
    decreases s.len(),
{
    let leq = text::lex_order();
    if s.len() > 1 {
        let init = s.drop_last();
        assert forall|i: int, j: int| 0 <= i < j < init.len() implies #[trigger] leq(
            init[i],
            init[j],
        ) by {
            assert(leq(s[i], s[j]));
        }
        lemma_without_repeats(init);
        let kept = text::without_repeats(init);
        let out = text::without_repeats(s);
        let last = s.last();
        assert(init.last() == s[s.len() - 2]);
        text::lemma_lex_total_ordering();
        assert forall|x: Seq<char>| #[trigger] out.contains(x) <==> s.contains(x) by {
            if out.contains(x) {
                let k = choose|k: int| 0 <= k < out.len() && out[k] == x;
                if k < kept.len() {
                    assert(kept[k] == x);
                    assert(kept.contains(x));
                    let m = choose|m: int| 0 <= m < init.len() && init[m] == x;
                    assert(s[m] == x);
                } else {
                    assert(s[s.len() - 1] == x);
                }
            }
            if s.contains(x) {
                let m = choose|m: int| 0 <= m < s.len() && s[m] == x;
                if m < s.len() - 1 {
                    assert(init[m] == x);
                    assert(init.contains(x));
                    assert(kept.contains(x));
                    let k = choose|k: int| 0 <= k < kept.len() && kept[k] == x;
                    assert(out[k] == x);
                } else if init.last() == last {
                    assert(kept[kept.len() - 1] == x);
                    assert(out.contains(x));
                } else {
                    assert(out[kept.len() as int] == x);
                }
            }
        }
        if init.last() != last {
            assert forall|i: int, j: int| 0 <= i < j < out.len() implies #[trigger] leq(
                out[i],
                out[j],
            ) by {
                if j == kept.len() {
                    assert(kept.contains(kept[i]));
                    let m = choose|m: int| 0 <= m < init.len() && init[m] == kept[i];
                    assert(leq(s[m], s[s.len() - 1]));
                } else {
                    assert(leq(kept[i], kept[j]));
                }
            }
            assert forall|i: int, j: int|
                0 <= i < out.len() && 0 <= j < out.len() && i != j implies out[i] != out[j] by {
                if i == kept.len() || j == kept.len() {
                    let o = if i == kept.len() {
                        j
                    } else {
                        i
                    };
                    if kept[o] == last {
                        // Then the neighbour of `last` lies between two equal items.
                        assert(leq(kept[o], kept.last()));
                        assert(leq(s[s.len() - 2], s[s.len() - 1]));
                        assert(kept.last() == last);
                    }
                }
            }
        }
    }
}

/// Normalizing tags of ASCII characters once more changes nothing.
pub proof fn lemma_ascii_tags_settle(tags: Seq<String>)
    requires
        folds_ascii(tags),
        ascii_tags(text::views(tags)),
    ensures
        settled(normalized_tags(text::views(tags))),
{
    broadcast use vstd::seq_lib::group_to_multiset_ensures;

    let all = text::views(tags);
    let folded = folded_tags(all);
    let sorted = text::sorted_texts(folded);
    let settled_tags = normalized_tags(all);
    text::lemma_lex_total_ordering();
    folded.lemma_sort_by_ensures(text::lex_order());
    lemma_without_repeats(sorted);
    assert forall|i: int| 0 <= i < settled_tags.len() implies folded_tag(
        #[trigger] settled_tags[i],
    ) == settled_tags[i] by {
        let tag = settled_tags[i];
        assert(settled_tags.contains(tag));
        assert(sorted.contains(tag));
        assert(sorted.to_multiset().count(tag) > 0);
        assert(folded.to_multiset().count(tag) > 0);
        assert(folded.contains(tag));
        lemma_folded_tags_contain(all, tag);
        let k = choose|k: int| 0 <= k < all.len() && folded_tag(#[trigger] all[k]) == tag;
        assert(all[k] == tags[k]@);
        assert(text::is_ascii_text(all[k]));
        text::lemma_folded_stays_trimmed(all[k]);
        assert(folds_as_ascii(tags[k]@));
    }
}

/// Tags are a set: order, repetition, case and surrounding white space of the
/// given tags do not change the normalized tags, so they do not change identity.
pub proof fn law_tag_arrangement_is_irrelevant(a: Seq<Seq<char>>, b: Seq<Seq<char>>)
    requires
        forall|tag: Seq<char>| #[trigger] folds_to(a, tag) <==> folds_to(b, tag),
    ensures
        normalized_tags(a) == normalized_tags(b),
{
    let (fa, fb) = (folded_tags(a), folded_tags(b));
    let (sa, sb) = (text::sorted_texts(fa), text::sorted_texts(fb));
    text::lemma_lex_total_ordering();
    fa.lemma_sort_by_ensures(text::lex_order());
    fb.lemma_sort_by_ensures(text::lex_order());
    lemma_without_repeats(sa);
    lemma_without_repeats(sb);
    let (na, nb) = (normalized_tags(a), normalized_tags(b));
    broadcast use vstd::seq_lib::group_to_multiset_ensures;

    assert forall|tag: Seq<char>| na.contains(tag) == nb.contains(tag) by {
        assert(na.contains(tag) <==> sa.contains(tag));
        assert(nb.contains(tag) <==> sb.contains(tag));
        assert(sa.contains(tag) <==> sa.to_multiset().count(tag) > 0);
        assert(fa.contains(tag) <==> fa.to_multiset().count(tag) > 0);
        assert(sb.contains(tag) <==> sb.to_multiset().count(tag) > 0);
        assert(fb.contains(tag) <==> fb.to_multiset().count(tag) > 0);
        lemma_folded_tags_contain(a, tag);
        lemma_folded_tags_contain(b, tag);
        assert(folds_to(a, tag) <==> folds_to(b, tag));
    }
    assert(na.to_multiset() =~= nb.to_multiset()) by {
        na.lemma_multiset_has_no_duplicates();
        nb.lemma_multiset_has_no_duplicates();
        assert forall|x: Seq<char>| na.to_multiset().count(x) == nb.to_multiset().count(x) by {
            assert(na.contains(x) <==> na.to_multiset().count(x) > 0);
            assert(nb.contains(x) <==> nb.to_multiset().count(x) > 0);
        }
    }
    lemma_sorted_unique(na, nb, text::lex_order());
}

/// The property of the published namespace for one export.
pub open spec fn published_export(name: Seq<char>) -> Seq<char> {
    json::json_quoted(name) + ": (typeof "@ + name + " === 'function' ? "@ + name + " : undefined)"@
}

/// What a host parameter is bound to: the global of that name where the skill
/// declares the operation, and `undefined` otherwise.
pub open spec fn host_binding(
    manifest: ManifestModel,
    capability: HostCapability,
    name: Seq<char>,
) -> Seq<char> {
    if manifest.allows(capability) {
        "globalThis."@ + name
    } else {
        "undefined"@
    }
}

/// The frozen object that stands for the global object inside a skill.
pub open spec fn safe_global(manifest: ManifestModel) -> Seq<char> {
    "Object.freeze({read_file:"@ + host_binding(
        manifest,
        HostCapability::ReadFile,
        "read_file"@,
    ) + ",write_file:"@ + host_binding(manifest, HostCapability::WriteFile, "write_file"@)
        + ",spawn:"@ + host_binding(manifest, HostCapability::Spawn, "spawn"@) + ",fetch:"@
        + host_binding(manifest, HostCapability::Fetch, "fetch"@) + "})"@
}

/// The script that evaluates a skill in a private function scope.
pub open spec fn private_script(skill: ArtifactModel) -> Seq<char> {
    let m = skill.capability;
    "(function(read_file,write_file,spawn,fetch,globalThis,self,window,global,Function,Promise,__zs_Object){\n'use strict';\n"@
        + skill.source + "\n;return __zs_Object.freeze({"@ + text::joined(
        skill.exports.map_values(|e: ExportModel| published_export(e.name)),
        ","@,
    ) + "});\n})("@ + host_binding(m, HostCapability::ReadFile, "read_file"@) + ","@ + host_binding(
        m,
        HostCapability::WriteFile,
        "write_file"@,
    ) + ","@ + host_binding(m, HostCapability::Spawn, "spawn"@) + ","@ + host_binding(
        m,
        HostCapability::Fetch,
        "fetch"@,
    ) + ","@ + safe_global(m) + ","@ + safe_global(m) + ","@ + safe_global(m) + ","@ + safe_global(m)
        + ",undefined,undefined,Object)"@
}

fn bind_host(manifest: &CapabilityManifest, capability: HostCapability, name: &str) -> (r: String)
    ensures
        r@ == host_binding(manifest@, capability, name@),
{
    if manifest.allows(capability) {
        text::join2("globalThis.", name)
    } else {
        "undefined".to_owned()
    }
}

fn publish_export(name: &str) -> (r: String)
    ensures
        r@ == published_export(name@),
{
    let key = match json::quote_json(name) {
        Ok(key) => key,
        Err(_) => "\"invalid\"".to_owned(),
    };
    let mut out = key;
    out.append(": (typeof ");
    out.append(name);
    out.append(" === 'function' ? ");
    out.append(name);
    out.append(" : undefined)");
    out
}

/// Renders the script that evaluates a skill in a private function scope, with
/// exactly the declared host operations bound.
pub fn private_skill_source(skill: &SkillArtifact) -> (r: String)
    ensures
        r@ == private_script(skill@),
{
    let ghost wanted = skill@.exports.map_values(|e: ExportModel| published_export(e.name));
    let mut published: Vec<String> = Vec::new();
    let mut i: usize = 0;
    while i < skill.exports.len()
        invariant
            i <= skill.exports@.len(),
            wanted == skill@.exports.map_values(|e: ExportModel| published_export(e.name)),
            text::views(published@) =~= wanted.take(i as int),
        decreases skill.exports@.len() - i,
    {
        let ghost before = text::views(published@);
        let item = publish_export(&skill.exports[i].name);
        assert(skill@.exports[i as int] == skill.exports@[i as int]@);
        assert(wanted[i as int] == item@);
        published.push(item);
        assert(text::views(published@) =~= before.push(item@));
        i = i + 1;
    }
    assert(wanted.take(wanted.len() as int) =~= wanted);
    let published = text::join(&published, ",");
    let read_file = bind_host(&skill.capability, HostCapability::ReadFile, "read_file");
    let write_file = bind_host(&skill.capability, HostCapability::WriteFile, "write_file");
    let spawn = bind_host(&skill.capability, HostCapability::Spawn, "spawn");
    let fetch = bind_host(&skill.capability, HostCapability::Fetch, "fetch");
    let mut global = "Object.freeze({read_file:".to_owned();
    global.append(&read_file);
    global.append(",write_file:");
    global.append(&write_file);
    global.append(",spawn:");
    global.append(&spawn);
    global.append(",fetch:");
    global.append(&fetch);
    global.append("})");
    let mut out = "(function(read_file,write_file,spawn,fetch,globalThis,self,window,global,Function,Promise,__zs_Object){\n'use strict';\n".to_owned();
    out.append(&skill.source);
    out.append("\n;return __zs_Object.freeze({");
    out.append(&published);
    out.append("});\n})(");
    out.append(&read_file);
    out.append(",");
    out.append(&write_file);
    out.append(",");
    out.append(&spawn);
    out.append(",");
    out.append(&fetch);
    out.append(",");
    out.append(&global);
    out.append(",");
    out.append(&global);
    out.append(",");
    out.append(&global);
    out.append(",");
    out.append(&global);
    out.append(",undefined,undefined,Object)");
    out
}

/// A pure skill may declare no host operation, a read-only skill only reading files, and a
/// side-effecting skill all of them. Tiers and operations are written by these names.
pub proof fn law_tiers_bound_what_may_be_declared(tier: CapabilityTier, host: HostCapability)
    ensures
        tier.spec_permits(host) <==> tier is SideEffecting || (tier is ReadOnly && host
            is ReadFile),
        tier.token() == match tier {
            CapabilityTier::Pure => "pure"@,
            CapabilityTier::ReadOnly => "read_only"@,
            CapabilityTier::SideEffecting => "side_effecting"@,
        },
        host.token() == match host {
            HostCapability::ReadFile => "read_file"@,
            HostCapability::WriteFile => "write_file"@,
            HostCapability::Spawn => "spawn"@,
            HostCapability::Fetch => "fetch"@,
        },
        forall|m: ManifestModel| #[trigger]
            m.valid() && m.tier is Pure ==> m.allowed_hosts.len() == 0,
{
    assert forall|m: ManifestModel| #[trigger] m.valid() && m.tier is Pure implies m.allowed_hosts.len()
        == 0 by {
        law_manifest_validity(m);
        if m.allowed_hosts.len() > 0 {
            assert(m.tier.spec_permits(m.allowed_hosts[0]));
        }
    }
}

proof fn lemma_no_export_fault(exports: Seq<ExportModel>, from: int)
    requires
        0 <= from <= exports.len(),
    ensures
        export_fault_from(exports, from) is None <==> forall|i: int|
            from <= i < exports.len() ==> !text::is_blank((#[trigger] exports[i]).name)
                && !export_named_before(exports, i),
    decreases exports.len() - from,
{
    if from < exports.len() {
        lemma_no_export_fault(exports, from + 1);
        let e = exports[from];
    }
}

/// A skill is made exactly where its manifest is valid, its description is not blank, and
/// its exports have names, each a name of its own.
pub proof fn law_skills_are_described_and_their_exports_told_apart(
    description: Seq<char>,
    exports: Seq<ExportModel>,
    capability: ManifestModel,
)
    ensures
        construction_fault(description, exports, capability) is None <==> {
            &&& capability.valid()
            &&& !text::is_blank(description)
            &&& forall|i: int|
                0 <= i < exports.len() ==> !text::is_blank((#[trigger] exports[i]).name)
            &&& forall|i: int, j: int|
                0 <= i < j < exports.len() ==> (#[trigger] exports[i]).name != (
                #[trigger] exports[j]).name
        },
{
    lemma_no_export_fault(exports, 0);
    if forall|i: int, j: int|
        0 <= i < j < exports.len() ==> (#[trigger] exports[i]).name != (
        #[trigger] exports[j]).name {
        assert forall|i: int| 0 <= i < exports.len() implies !export_named_before(exports, i) by {
            let e = exports[i];
        }
    }
    if export_fault_from(exports, 0) is None {
        assert forall|i: int, j: int| 0 <= i < j < exports.len() implies (#[trigger] exports[i]).name
            != (#[trigger] exports[j]).name by {
            assert(!export_named_before(exports, j));
        }
    }
}

/// The tags of a skill are those it was given, trimmed and in lower case: all that are not
/// then empty, each once, in order, and no others.
pub proof fn law_tags_are_those_given(tags: Seq<Seq<char>>, tag: Seq<char>)
    ensures
        normalized_tags(tags).contains(tag) <==> tag.len() > 0 && exists|i: int|
            0 <= i < tags.len() && text::lowercased(text::trimmed(#[trigger] tags[i])) == tag,
        normalized_tags(tags).no_duplicates(),
        forall|i: int, j: int|
            0 <= i < j < normalized_tags(tags).len() ==> text::lex_le(
                #[trigger] normalized_tags(tags)[i],
                #[trigger] normalized_tags(tags)[j],
            ),
{
    broadcast use vstd::seq_lib::group_to_multiset_ensures;

    let folded = folded_tags(tags);
    let sorted = text::sorted_texts(folded);
    let out = normalized_tags(tags);
    text::lemma_lex_total_ordering();
    folded.lemma_sort_by_ensures(text::lex_order());
    lemma_without_repeats(sorted);
    lemma_folded_tags_contain(tags, tag);
    assert(out.contains(tag) <==> sorted.contains(tag));
    assert(sorted.contains(tag) <==> sorted.to_multiset().count(tag) > 0);
    assert(folded.contains(tag) <==> folded.to_multiset().count(tag) > 0);
    assert(folds_to(tags, tag) <==> exists|i: int|
        0 <= i < tags.len() && text::lowercased(text::trimmed(#[trigger] tags[i])) == tag) by {
        if folds_to(tags, tag) {
            let i = choose|i: int| 0 <= i < tags.len() && folded_tag(#[trigger] tags[i]) == tag;
            assert(text::lowercased(text::trimmed(tags[i])) == tag);
        }
        if exists|i: int|
            0 <= i < tags.len() && text::lowercased(text::trimmed(#[trigger] tags[i])) == tag {
            let i = choose|i: int|
                0 <= i < tags.len() && text::lowercased(text::trimmed(#[trigger] tags[i])) == tag;
            assert(folded_tag(tags[i]) == tag);
        }
    }
    let leq = text::lex_order();
    assert forall|i: int, j: int| 0 <= i < j < out.len() implies text::lex_le(
        #[trigger] out[i],
        #[trigger] out[j],
    ) by {
        assert(leq(out[i], out[j]));
    }
}

/// A stored skill is trusted exactly where it is of the one identity version there is, its
/// id is sixty-four hexadecimal digits that its own contents hash to, and its manifest is
/// valid.
pub proof fn law_stored_skills_prove_their_identity(a: ArtifactModel)
    ensures
        a.stored_fault() is None <==> {
            &&& a.identity_version == 1
            &&& a.id == digest::hex(digest::sha256(a.canonical()))
            &&& a.id.len() == 64
            &&& digest::is_full_hex(a.id)
            &&& a.capability.valid()
        },
{
}

/// Inside its script a skill sees a host operation only where it declares it: then the
/// name is bound to the host's operation, and otherwise to nothing. The same holds of the
/// object that stands for the global one, under each of its four names, and the ways to
/// new code are bound to nothing.
pub proof fn law_scripts_bind_only_declared_operations(skill: ArtifactModel)
    ensures
        ({
            let hosts = skill.capability.allowed_hosts;
            let bound = |host: HostCapability, name: Seq<char>|
                if hosts.contains(host) {
                    "globalThis."@ + name
                } else {
                    "undefined"@
                };
            let read = bound(HostCapability::ReadFile, "read_file"@);
            let write = bound(HostCapability::WriteFile, "write_file"@);
            let spawn = bound(HostCapability::Spawn, "spawn"@);
            let fetch = bound(HostCapability::Fetch, "fetch"@);
            let global = "Object.freeze({read_file:"@ + read + ",write_file:"@ + write + ",spawn:"@
                + spawn + ",fetch:"@ + fetch + "})"@;
            let published = skill.exports.map_values(
                |e: ExportModel|
                    json::json_quoted(e.name) + ": (typeof "@ + e.name + " === 'function' ? "@
                        + e.name + " : undefined)"@,
            );
            private_script(skill)
                == "(function(read_file,write_file,spawn,fetch,globalThis,self,window,global,Function,Promise,__zs_Object){\n'use strict';\n"@
                + skill.source + "\n;return __zs_Object.freeze({"@ + text::joined(published, ","@)
                + "});\n})("@ + read + ","@ + write + ","@ + spawn + ","@ + fetch + ","@ + global
                + ","@ + global + ","@ + global + ","@ + global + ",undefined,undefined,Object)"@
        }),
{
    let published = skill.exports.map_values(
        |e: ExportModel|
            json::json_quoted(e.name) + ": (typeof "@ + e.name + " === 'function' ? "@ + e.name
                + " : undefined)"@,
    );
    assert(published =~= skill.exports.map_values(|e: ExportModel| published_export(e.name)));
}

} // verus!
