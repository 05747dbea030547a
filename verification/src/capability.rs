//! Runtime intersection of session authority and immutable skill manifests.

use crate::artifact::{
    CapabilityManifest, CapabilityTier, HostCapability, IdentityError, IdentityFault, ManifestModel,
};
use crate::digest;
use crate::json;
use crate::json::{Json, JsonValue};
use crate::text;
use vstd::prelude::*;
use vstd::string::*;

verus! {

/// The most denials that one step keeps.
pub const MAX_DENIALS: usize = 256;

/// The skill and export on whose behalf code runs.
#[derive(Debug, Clone, PartialEq, Eq)]
pub struct SkillExecutionAttribution {
    pub skill_id: String,
    pub export_name: String,
    pub manifest: CapabilityManifest,
}

/// The contents of a [`SkillExecutionAttribution`].
#[verifier::ext_equal]
pub struct AttributionModel {
    pub skill_id: Seq<char>,
    pub export_name: Seq<char>,
    pub manifest: ManifestModel,
}

impl View for SkillExecutionAttribution {
    type V = AttributionModel;

    open spec fn view(&self) -> AttributionModel {
        AttributionModel {
            skill_id: self.skill_id@,
            export_name: self.export_name@,
            manifest: self.manifest@,
        }
    }
}

impl SkillExecutionAttribution {
    /// A copy of the attribution.
    pub fn copy(&self) -> (r: SkillExecutionAttribution)
        ensures
            r@ == self@,
    {
        SkillExecutionAttribution {
            skill_id: self.skill_id.clone(),
            export_name: self.export_name.clone(),
            manifest: self.manifest.copy(),
        }
    }
}

#[derive(Debug, Clone, Copy, PartialEq, Eq, Structural)]
pub enum CapabilityDenialReason {
    Undeclared,
    SessionDenied,
    InvalidManifest,
}

/// An operation that was refused, and to whom.
#[derive(Debug, Clone, PartialEq, Eq)]
pub struct CapabilityDenied {
    pub skill_id: String,
    pub export_name: String,
    pub operation: HostCapability,
    pub reason: CapabilityDenialReason,
}

/// The contents of a [`CapabilityDenied`].
#[verifier::ext_equal]
pub struct DenialModel {
    pub skill_id: Seq<char>,
    pub export_name: Seq<char>,
    pub operation: HostCapability,
    pub reason: CapabilityDenialReason,
}

impl View for CapabilityDenied {
    type V = DenialModel;

    open spec fn view(&self) -> DenialModel {
        DenialModel {
            skill_id: self.skill_id@,
            export_name: self.export_name@,
            operation: self.operation,
            reason: self.reason,
        }
    }
}

/// Why an operation or an invocation was refused.
#[derive(Debug)]
pub enum CapabilityError {
    InvalidAttribution,
    InvalidManifest(IdentityError),
    Denied(CapabilityDenied),
    InvalidInvocation,
    Revoked,
    InvalidArguments,
    DispatchDenied,
}

/// The contents of a [`CapabilityError`].
#[verifier::ext_equal]
pub enum CapabilityFault {
    InvalidAttribution,
    InvalidManifest(IdentityFault),
    Denied(DenialModel),
    InvalidInvocation,
    Revoked,
    InvalidArguments,
    DispatchDenied,
}

impl View for CapabilityError {
    type V = CapabilityFault;

    open spec fn view(&self) -> CapabilityFault {
        match *self {
            CapabilityError::InvalidAttribution => CapabilityFault::InvalidAttribution,
            CapabilityError::InvalidManifest(e) => CapabilityFault::InvalidManifest(e@),
            CapabilityError::Denied(d) => CapabilityFault::Denied(d@),
            CapabilityError::InvalidInvocation => CapabilityFault::InvalidInvocation,
            CapabilityError::Revoked => CapabilityFault::Revoked,
            CapabilityError::InvalidArguments => CapabilityFault::InvalidArguments,
            CapabilityError::DispatchDenied => CapabilityFault::DispatchDenied,
        }
    }
}

impl CapabilityFault {
    /// The sentence that reports the fault.
    pub open spec fn sentence(self) -> Seq<char> {
        match self {
            CapabilityFault::InvalidAttribution => {
                "skill attribution is missing an immutable full ID or export"@
            },
            CapabilityFault::InvalidManifest(f) => {
                "invalid immutable capability manifest: "@ + f.sentence()
            },
            CapabilityFault::Denied(_) => "skill capability denied"@,
            CapabilityFault::InvalidInvocation => {
                "invocation authorization is missing or invalid"@
            },
            CapabilityFault::Revoked => "invocation capability has been revoked"@,
            CapabilityFault::InvalidArguments => {
                "effect arguments are outside the invocation ABI"@
            },
            CapabilityFault::DispatchDenied => "effect dispatcher denied the request"@,
        }
    }
}

impl CapabilityError {
    /// The sentence that reports the error.
    pub fn message(&self) -> (r: String)
        ensures
            r@ == self@.sentence(),
    {
        match self {
            CapabilityError::InvalidAttribution => {
                "skill attribution is missing an immutable full ID or export".to_owned()
            },
            CapabilityError::InvalidManifest(e) => {
                let detail = e.message();
                text::join2("invalid immutable capability manifest: ", &detail)
            },
            CapabilityError::Denied(_) => "skill capability denied".to_owned(),
            CapabilityError::InvalidInvocation => {
                "invocation authorization is missing or invalid".to_owned()
            },
            CapabilityError::Revoked => "invocation capability has been revoked".to_owned(),
            CapabilityError::InvalidArguments => {
                "effect arguments are outside the invocation ABI".to_owned()
            },
            CapabilityError::DispatchDenied => "effect dispatcher denied the request".to_owned(),
        }
    }
}

/// What is wrong with an attribution: it names no full lowercase id, no export, or
/// its manifest is invalid.
pub open spec fn attribution_fault(m: AttributionModel) -> Option<CapabilityFault> {
    if !digest::is_full_lower_hex(m.skill_id) || text::is_blank(m.export_name) {
        Some(CapabilityFault::InvalidAttribution)
    } else {
        match m.manifest.fault() {
            Some(f) => Some(CapabilityFault::InvalidManifest(f)),
            None => None,
        }
    }
}

pub fn validate_attribution(attribution: &SkillExecutionAttribution) -> (r: Result<
    (),
    CapabilityError,
>)
    ensures
        match r {
            Ok(()) => attribution_fault(attribution@) is None,
            Err(e) => attribution_fault(attribution@) == Some(e@),
        },
{
    if !digest::full_lower_hex(&attribution.skill_id) || text::blank(&attribution.export_name) {
        return Err(CapabilityError::InvalidAttribution);
    }
    match attribution.manifest.validate() {
        Ok(()) => Ok(()),
        Err(e) => Err(CapabilityError::InvalidManifest(e)),
    }
}

/// One host operation and the grant that covers it.
#[derive(Debug, Clone, PartialEq, Eq)]
pub struct InvocationGrant {
    pub capability: HostCapability,
    pub grant_id: String,
}

/// The contents of an [`InvocationGrant`].
#[verifier::ext_equal]
pub struct GrantModel {
    pub capability: HostCapability,
    pub grant_id: Seq<char>,
}

impl View for InvocationGrant {
    type V = GrantModel;

    open spec fn view(&self) -> GrantModel {
        GrantModel { capability: self.capability, grant_id: self.grant_id@ }
    }
}

pub open spec fn grant_views(s: Seq<InvocationGrant>) -> Seq<GrantModel> {
    s.map_values(|g: InvocationGrant| g@)
}

/// Parent-issued authority for exactly one export invocation.
#[derive(Debug, Clone)]
pub struct InvocationAuthorization {
    pub invocation_id: String,
    pub attribution: SkillExecutionAttribution,
    pub grants: Vec<InvocationGrant>,
}

/// The contents of an [`InvocationAuthorization`].
#[verifier::ext_equal]
pub struct AuthorizationModel {
    pub invocation_id: Seq<char>,
    pub attribution: AttributionModel,
    pub grants: Seq<GrantModel>,
}

impl View for InvocationAuthorization {
    type V = AuthorizationModel;

    open spec fn view(&self) -> AuthorizationModel {
        AuthorizationModel {
            invocation_id: self.invocation_id@,
            attribution: self.attribution@,
            grants: grant_views(self.grants@),
        }
    }
}

pub open spec fn grant_covers(capability: HostCapability) -> spec_fn(GrantModel) -> bool {
    |g: GrantModel| g.capability == capability
}

/// The grant that covers an operation.
pub open spec fn grant_for(grants: Seq<GrantModel>, capability: HostCapability) -> Option<
    Seq<char>,
> {
    match crate::store::position(grants, grant_covers(capability)) {
        Some(i) => Some(grants[i].grant_id),
        None => None,
    }
}

/// The grants cover exactly the declared operations, each by a grant of its own.
pub open spec fn grants_match(manifest: ManifestModel, grants: Seq<GrantModel>) -> bool {
    &&& grants.len() == manifest.allowed_hosts.len()
    &&& forall|i: int, j: int|
        0 <= i < j < grants.len() ==> (#[trigger] grants[i]).capability != (
        #[trigger] grants[j]).capability
    &&& forall|i: int, j: int|
        0 <= i < j < grants.len() ==> (#[trigger] grants[i]).grant_id != (
        #[trigger] grants[j]).grant_id
    &&& forall|i: int|
        0 <= i < manifest.allowed_hosts.len() ==> grant_for(
            grants,
            #[trigger] manifest.allowed_hosts[i],
        ) is Some
}

fn find_grant(grants: &Vec<InvocationGrant>, capability: HostCapability) -> (r: Option<usize>)
    ensures
        match r {
            Some(i) => i < grants@.len() && crate::store::position(
                grant_views(grants@),
                grant_covers(capability),
            ) == Some(i as int),
            None => crate::store::position(grant_views(grants@), grant_covers(capability)) is None,
        },
{
    let ghost all = grant_views(grants@);
    let ghost p = grant_covers(capability);
    let mut i: usize = 0;
    while i < grants.len()
        invariant
            i <= grants@.len(),
            all == grant_views(grants@),
            p == grant_covers(capability),
            forall|j: int| 0 <= j < i ==> !p(#[trigger] all[j]),
        decreases grants@.len() - i,
    {
        assert(all[i as int] == grants@[i as int]@);
        if grants[i].capability == capability {
            proof {
                crate::store::lemma_position_found(all, p, i as int);
            }
            return Some(i);
        }
        i = i + 1;
    }
    proof {
        crate::store::lemma_position_missing(all, p);
    }
    None
}

fn grants_fit(manifest: &CapabilityManifest, grants: &Vec<InvocationGrant>) -> (r: bool)
    ensures
        r == grants_match(manifest@, grant_views(grants@)),
{
    let ghost all = grant_views(grants@);
    if grants.len() != manifest.allowed_hosts.len() {
        return false;
    }
    let mut i: usize = 0;
    while i < grants.len()
        invariant
            i <= grants@.len(),
            all == grant_views(grants@),
            forall|p: int, q: int|
                0 <= p < q < i ==> (#[trigger] all[p]).capability != (#[trigger] all[q]).capability
                    && all[p].grant_id != all[q].grant_id,
        decreases grants@.len() - i,
    {
        let mut j: usize = 0;
        while j < i
            invariant
                j <= i < grants@.len(),
                all == grant_views(grants@),
                forall|p: int|
                    0 <= p < j ==> (#[trigger] all[p]).capability != all[i as int].capability
                        && all[p].grant_id != all[i as int].grant_id,
            decreases i - j,
        {
            assert(all[j as int] == grants@[j as int]@);
            assert(all[i as int] == grants@[i as int]@);
            if grants[j].capability == grants[i].capability || text::same(
                &grants[j].grant_id,
                &grants[i].grant_id,
            ) {
                return false;
            }
            j = j + 1;
        }
        i = i + 1;
    }
    let mut k: usize = 0;
    while k < manifest.allowed_hosts.len()
        invariant
            k <= manifest.allowed_hosts@.len(),
            all == grant_views(grants@),
            forall|p: int|
                0 <= p < k ==> grant_for(all, #[trigger] manifest.allowed_hosts@[p]) is Some,
        decreases manifest.allowed_hosts@.len() - k,
    {
        match find_grant(grants, manifest.allowed_hosts[k]) {
            None => {
                assert(grant_for(all, manifest@.allowed_hosts[k as int]) is None);
                return false;
            },
            Some(_) => {},
        }
        k = k + 1;
    }
    true
}

impl InvocationAuthorization {
    /// Binds an invocation to its attribution and its grants.
    pub fn new(
        invocation_id: String,
        skill_id: String,
        export_name: String,
        manifest: CapabilityManifest,
        grants: Vec<InvocationGrant>,
    ) -> (r: Result<InvocationAuthorization, CapabilityError>)
        ensures
            ({
                let attribution = AttributionModel {
                    skill_id: skill_id@,
                    export_name: export_name@,
                    manifest: manifest@,
                };
                match r {
                    Ok(v) => {
                        &&& attribution_fault(attribution) is None
                        &&& grants_match(manifest@, grant_views(grants@))
                        &&& v@ == (AuthorizationModel {
                            invocation_id: invocation_id@,
                            attribution,
                            grants: grant_views(grants@),
                        })
                    },
                    Err(e) => if attribution_fault(attribution) is Some {
                        attribution_fault(attribution) == Some(e@)
                    } else {
                        !grants_match(manifest@, grant_views(grants@)) && e@
                            == CapabilityFault::InvalidInvocation
                    },
                }
            }),
    {
        let attribution = SkillExecutionAttribution { skill_id, export_name, manifest };
        match validate_attribution(&attribution) {
            Ok(()) => {},
            Err(e) => {
                return Err(e);
            },
        }
        if !grants_fit(&attribution.manifest, &grants) {
            return Err(CapabilityError::InvalidInvocation);
        }
        Ok(InvocationAuthorization { invocation_id, attribution, grants })
    }
}

#[derive(Debug, Clone, Copy, PartialEq, Eq, Structural)]
pub enum HttpMethod {
    Get,
    Post,
}

#[derive(Debug, Clone, PartialEq, Eq)]
pub struct HttpHeader {
    pub name: String,
    pub value: String,
}

/// The contents of an [`HttpHeader`].
#[verifier::ext_equal]
pub struct HeaderModel {
    pub name: Seq<char>,
    pub value: Seq<char>,
}

impl View for HttpHeader {
    type V = HeaderModel;

    open spec fn view(&self) -> HeaderModel {
        HeaderModel { name: self.name@, value: self.value@ }
    }
}

pub open spec fn header_views(s: Seq<HttpHeader>) -> Seq<HeaderModel> {
    s.map_values(|h: HttpHeader| h@)
}

/// A host operation with its arguments.
#[derive(Debug, Clone, PartialEq, Eq)]
pub enum EffectOperation {
    ReadFile { path: String },
    WriteFile { path: String, content: String },
    Spawn { program: String, arguments: Vec<String> },
    Fetch { url: String, method: HttpMethod, headers: Vec<HttpHeader>, body: Option<String> },
}

/// The contents of an [`EffectOperation`].
#[verifier::ext_equal]
pub enum OperationModel {
    ReadFile { path: Seq<char> },
    WriteFile { path: Seq<char>, content: Seq<char> },
    Spawn { program: Seq<char>, arguments: Seq<Seq<char>> },
    Fetch {
        url: Seq<char>,
        method: HttpMethod,
        headers: Seq<HeaderModel>,
        body: Option<Seq<char>>,
    },
}

impl View for EffectOperation {
    type V = OperationModel;

    open spec fn view(&self) -> OperationModel {
        match *self {
            EffectOperation::ReadFile { path } => OperationModel::ReadFile { path: path@ },
            EffectOperation::WriteFile { path, content } => {
                OperationModel::WriteFile { path: path@, content: content@ }
            },
            EffectOperation::Spawn { program, arguments } => {
                OperationModel::Spawn { program: program@, arguments: text::views(arguments@) }
            },
            EffectOperation::Fetch { url, method, headers, body } => {
                OperationModel::Fetch {
                    url: url@,
                    method,
                    headers: header_views(headers@),
                    body: text::opt_view(body),
                }
            },
        }
    }
}

/// An effect that an invocation asks for. The invocation identity travels apart
/// from the advisory fields.
#[derive(Debug, Clone, PartialEq, Eq)]
pub struct DispatchedEffect {
    pub invocation_id: String,
    pub effect_ordinal: u32,
    pub grant_id: String,
    pub artifact_id: String,
    pub export: String,
    pub operation: EffectOperation,
}

/// The contents of a [`DispatchedEffect`].
#[verifier::ext_equal]
pub struct EffectModel {
    pub invocation_id: Seq<char>,
    pub effect_ordinal: u32,
    pub grant_id: Seq<char>,
    pub artifact_id: Seq<char>,
    pub export: Seq<char>,
    pub operation: OperationModel,
}

impl View for DispatchedEffect {
    type V = EffectModel;

    open spec fn view(&self) -> EffectModel {
        EffectModel {
            invocation_id: self.invocation_id@,
            effect_ordinal: self.effect_ordinal,
            grant_id: self.grant_id@,
            artifact_id: self.artifact_id@,
            export: self.export@,
            operation: self.operation@,
        }
    }
}

#[derive(Debug, Clone, Copy, PartialEq, Eq, Structural)]
pub enum EffectErrorCode {
    Denied,
    InvalidTarget,
    Cancelled,
    TimedOut,
    OutputLimit,
    BackendFailure,
    AuditFailure,
    OutcomeUnknown,
}

/// What the dispatcher answered.
#[derive(Debug, Clone, PartialEq, Eq)]
pub enum EffectResult {
    ReadFile { content: String },
    WriteFile,
    Fetch { status: u16, headers: Vec<HttpHeader>, body: String, truncated: bool },
    Spawn {
        stdout: String,
        stderr: String,
        exit_code: Option<i32>,
        timed_out: bool,
        stdout_truncated: bool,
        stderr_truncated: bool,
    },
    ProposalAccepted,
    Error(EffectErrorCode),
}

/// The texts of a list of values, where all of them are texts.
pub open spec fn all_texts(items: Seq<Json>) -> Option<Seq<Seq<char>>> {
    if forall|i: int| 0 <= i < items.len() ==> json::as_text(#[trigger] items[i]) is Some {
        Some(items.map_values(|v: Json| json::as_text(v)->0))
    } else {
        None
    }
}

/// The headers of a list of entries, where all values are texts.
pub open spec fn decoded_headers(value: Json) -> Option<Seq<HeaderModel>> {
    match value {
        Json::Object(entries) => if forall|i: int|
            0 <= i < entries.len() ==> json::as_text((#[trigger] entries[i]).1) is Some {
            Some(
                entries.map_values(
                    |e: (Seq<char>, Json)|
                        HeaderModel { name: e.0, value: json::as_text(e.1)->0 },
                ),
            )
        } else {
            None
        },
        _ => None,
    }
}

/// The method that a value names.
pub open spec fn decoded_method(value: Json) -> Option<HttpMethod> {
    match json::as_text(value) {
        Some(name) => if name == "GET"@ {
            Some(HttpMethod::Get)
        } else if name == "POST"@ {
            Some(HttpMethod::Post)
        } else {
            None
        },
        None => None,
    }
}

pub open spec fn is_fetch_option(key: Seq<char>) -> bool {
    key == "method"@ || key == "headers"@ || key == "body"@
}

/// Method, headers and body of a fetch; only these options may be given.
pub open spec fn decoded_options(value: Json) -> Option<
    (HttpMethod, Seq<HeaderModel>, Option<Seq<char>>),
> {
    match value {
        Json::Object(entries) => {
            let method = match json::entry(entries, "method"@) {
                Some(v) => decoded_method(v),
                None => Some(HttpMethod::Get),
            };
            let headers = match json::entry(entries, "headers"@) {
                Some(v) => decoded_headers(v),
                None => Some(Seq::empty()),
            };
            let body = match json::entry(entries, "body"@) {
                Some(v) => match json::as_text(v) {
                    Some(s) => Some(Some(s)),
                    None => None,
                },
                None => Some(None),
            };
            if (forall|i: int| 0 <= i < entries.len() ==> is_fetch_option((#[trigger] entries[i]).0))
                && method is Some && headers is Some && body is Some {
                Some((method->0, headers->0, body->0))
            } else {
                None
            }
        },
        _ => None,
    }
}

/// The operation that a list of arguments asks for; `None` where the arguments are
/// outside the interface.
pub open spec fn decoded(operation: HostCapability, arguments: Json) -> Option<OperationModel> {
    match arguments {
        Json::Array(items) => match operation {
            HostCapability::ReadFile => if items.len() == 1 && json::as_text(items[0]) is Some {
                Some(OperationModel::ReadFile { path: json::as_text(items[0])->0 })
            } else {
                None
            },
            HostCapability::WriteFile => if items.len() == 2 && json::as_text(items[0]) is Some
                && json::as_text(items[1]) is Some {
                Some(
                    OperationModel::WriteFile {
                        path: json::as_text(items[0])->0,
                        content: json::as_text(items[1])->0,
                    },
                )
            } else {
                None
            },
            HostCapability::Spawn => if items.len() == 2 && json::as_text(items[0]) is Some {
                match items[1] {
                    Json::Array(values) => match all_texts(values) {
                        Some(arguments) => Some(
                            OperationModel::Spawn {
                                program: json::as_text(items[0])->0,
                                arguments,
                            },
                        ),
                        None => None,
                    },
                    _ => None,
                }
            } else {
                None
            },
            HostCapability::Fetch => if items.len() == 1 && json::as_text(items[0]) is Some {
                Some(
                    OperationModel::Fetch {
                        url: json::as_text(items[0])->0,
                        method: HttpMethod::Get,
                        headers: Seq::empty(),
                        body: None,
                    },
                )
            } else if items.len() == 2 && json::as_text(items[0]) is Some {
                match decoded_options(items[1]) {
                    Some((method, headers, body)) => Some(
                        OperationModel::Fetch {
                            url: json::as_text(items[0])->0,
                            method,
                            headers,
                            body,
                        },
                    ),
                    None => None,
                }
            } else {
                None
            },
        },
        _ => None,
    }
}

fn read_texts(items: &Vec<JsonValue>) -> (r: Option<Vec<String>>)
    ensures
        match r {
            Some(v) => all_texts(json::json_views(items@)) == Some(text::views(v@)),
            None => all_texts(json::json_views(items@)) is None,
        },
{
    let ghost all = json::json_views(items@);
    let mut out: Vec<String> = Vec::new();
    let mut i: usize = 0;
    while i < items.len()
        invariant
            i <= items@.len(),
            out@.len() == i,
            all == json::json_views(items@),
            forall|j: int|
                0 <= j < i ==> json::as_text(#[trigger] all[j]) == Some(text::views(out@)[j]),
        decreases items@.len() - i,
    {
        assert(all[i as int] == items@[i as int]@);
        match json::text_of(&items[i]) {
            None => {
                assert(json::as_text(all[i as int]) is None);
                return None;
            },
            Some(s) => {
                let ghost before = text::views(out@);
                out.push(s);
                assert(text::views(out@) =~= before.push(s@));
            },
        }
        i = i + 1;
    }
    assert(text::views(out@) =~= all.map_values(|v: Json| json::as_text(v)->0));
    Some(out)
}

fn read_headers(value: &JsonValue) -> (r: Option<Vec<HttpHeader>>)
    ensures
        match r {
            Some(v) => decoded_headers(value@) == Some(header_views(v@)),
            None => decoded_headers(value@) is None,
        },
{
    match value {
        JsonValue::Object(entries) => {
            proof {
                json::lemma_object_view(*entries);
            }
            let ghost all = json::entry_views(entries@);
            let mut out: Vec<HttpHeader> = Vec::new();
            let mut i: usize = 0;
            while i < entries.len()
                invariant
                    i <= entries@.len(),
                    out@.len() == i,
                    all == json::entry_views(entries@),
                    value@ == Json::Object(all),
                    forall|j: int|
                        0 <= j < i ==> json::as_text((#[trigger] all[j]).1) is Some && header_views(
                            out@,
                        )[j] == (HeaderModel {
                            name: all[j].0,
                            value: json::as_text(all[j].1)->0,
                        }),
                decreases entries@.len() - i,
            {
                assert(all[i as int] == (entries@[i as int].0@, entries@[i as int].1@));
                match json::text_of(&entries[i].1) {
                    None => {
                        assert(json::as_text(all[i as int].1) is None);
                        return None;
                    },
                    Some(s) => {
                        let ghost before = header_views(out@);
                        let header = HttpHeader { name: entries[i].0.clone(), value: s };
                        out.push(header);
                        assert(header_views(out@) =~= before.push(header@));
                    },
                }
                i = i + 1;
            }
            assert(header_views(out@) =~= all.map_values(
                |e: (Seq<char>, Json)| HeaderModel { name: e.0, value: json::as_text(e.1)->0 },
            ));
            Some(out)
        },
        _ => None,
    }
}

fn read_method(value: &JsonValue) -> (r: Option<HttpMethod>)
    ensures
        r == decoded_method(value@),
{
    match json::text_of(value) {
        None => None,
        Some(name) => if text::same(&name, "GET") {
            Some(HttpMethod::Get)
        } else if text::same(&name, "POST") {
            Some(HttpMethod::Post)
        } else {
            None
        },
    }
}

fn only_fetch_options(entries: &Vec<(String, JsonValue)>) -> (r: bool)
    ensures
        r == (forall|i: int|
            0 <= i < entries@.len() ==> is_fetch_option(
                (#[trigger] json::entry_views(entries@)[i]).0,
            )),
{
    let ghost all = json::entry_views(entries@);
    let mut i: usize = 0;
    while i < entries.len()
        invariant
            i <= entries@.len(),
            all == json::entry_views(entries@),
            forall|j: int| 0 <= j < i ==> is_fetch_option((#[trigger] all[j]).0),
        decreases entries@.len() - i,
    {
        assert(all[i as int].0 == entries@[i as int].0@);
        let key = &entries[i].0;
        if !text::same(key, "method") && !text::same(key, "headers") && !text::same(key, "body") {
            assert(!is_fetch_option(all[i as int].0));
            return false;
        }
        i = i + 1;
    }
    true
}

/// Reads the options of a fetch.
fn read_options(value: &JsonValue) -> (r: Option<
    (HttpMethod, Vec<HttpHeader>, Option<String>),
>)
    ensures
        match r {
            Some(v) => decoded_options(value@) == Some(
                (v.0, header_views(v.1@), text::opt_view(v.2)),
            ),
            None => decoded_options(value@) is None,
        },
{
    match value {
        JsonValue::Object(entries) => {
            proof {
                json::lemma_object_view(*entries);
            }
            if !only_fetch_options(entries) {
                return None;
            }
            let method = match json::find_entry(entries, "method") {
                None => HttpMethod::Get,
                Some(v) => match read_method(v) {
                    Some(method) => method,
                    None => {
                        return None;
                    },
                },
            };
            let headers = match json::find_entry(entries, "headers") {
                None => Vec::new(),
                Some(v) => match read_headers(v) {
                    Some(headers) => headers,
                    None => {
                        return None;
                    },
                },
            };
            assert(json::entry(json::entry_views(entries@), "headers"@) is None ==> header_views(
                headers@,
            ) =~= Seq::empty());
            let body = match json::find_entry(entries, "body") {
                None => None,
                Some(v) => match json::text_of(v) {
                    Some(s) => Some(s),
                    None => {
                        return None;
                    },
                },
            };
            Some((method, headers, body))
        },
        _ => None,
    }
}

/// Decodes the arguments of an operation.
pub fn decode_arguments(operation: HostCapability, arguments: &JsonValue) -> (r: Result<
    EffectOperation,
    CapabilityError,
>)
    ensures
        match r {
            Ok(v) => decoded(operation, arguments@) == Some(v@),
            Err(e) => decoded(operation, arguments@) is None && e@
                == CapabilityFault::InvalidArguments,
        },
{
    let items = match arguments {
        JsonValue::Array(items) => items,
        _ => {
            return Err(CapabilityError::InvalidArguments);
        },
    };
    proof {
        json::lemma_array_view(*items);
    }
    let ghost all = json::json_views(items@);
    let first = if items.len() > 0 {
        assert(all[0] == items@[0]@);
        json::text_of(&items[0])
    } else {
        None
    };
    let first = match first {
        Some(s) => s,
        None => {
            return Err(CapabilityError::InvalidArguments);
        },
    };
    if items.len() > 1 {
        assert(all[1] == items@[1]@);
    }
    match operation {
        HostCapability::ReadFile => {
            if items.len() != 1 {
                return Err(CapabilityError::InvalidArguments);
            }
            Ok(EffectOperation::ReadFile { path: first })
        },
        HostCapability::WriteFile => {
            if items.len() != 2 {
                return Err(CapabilityError::InvalidArguments);
            }
            match json::text_of(&items[1]) {
                Some(content) => Ok(EffectOperation::WriteFile { path: first, content }),
                None => Err(CapabilityError::InvalidArguments),
            }
        },
        HostCapability::Spawn => {
            if items.len() != 2 {
                return Err(CapabilityError::InvalidArguments);
            }
            match &items[1] {
                JsonValue::Array(values) => {
                    proof {
                        json::lemma_array_view(*values);
                    }
                    match read_texts(values) {
                        Some(arguments) => Ok(
                            EffectOperation::Spawn { program: first, arguments },
                        ),
                        None => Err(CapabilityError::InvalidArguments),
                    }
                },
                _ => Err(CapabilityError::InvalidArguments),
            }
        },
        HostCapability::Fetch => {
            if items.len() == 1 {
                let headers: Vec<HttpHeader> = Vec::new();
                assert(header_views(headers@) =~= Seq::empty());
                Ok(
                    EffectOperation::Fetch {
                        url: first,
                        method: HttpMethod::Get,
                        headers,
                        body: None,
                    },
                )
            } else if items.len() == 2 {
                match read_options(&items[1]) {
                    Some((method, headers, body)) => Ok(
                        EffectOperation::Fetch { url: first, method, headers, body },
                    ),
                    None => Err(CapabilityError::InvalidArguments),
                }
            } else {
                Err(CapabilityError::InvalidArguments)
            }
        },
    }
}

/// The operation that an encoded argument list asks for.
pub open spec fn decoded_text(operation: HostCapability, encoded: Seq<char>) -> Option<
    OperationModel,
> {
    match json::json_parsed(encoded) {
        Some(arguments) => decoded(operation, arguments),
        None => None,
    }
}

/// Decodes an encoded argument list.
pub fn decode_operation(operation: HostCapability, encoded_arguments: &str) -> (r: Result<
    EffectOperation,
    CapabilityError,
>)
    ensures
        match r {
            Ok(v) => decoded_text(operation, encoded_arguments@) == Some(v@),
            Err(e) => decoded_text(operation, encoded_arguments@) is None && e@
                == CapabilityFault::InvalidArguments,
        },
{
    match json::parse_json(encoded_arguments) {
        Some(arguments) => decode_arguments(operation, &arguments),
        None => Err(CapabilityError::InvalidArguments),
    }
}

/// Texts as a list of JSON values.
pub open spec fn texts_as_json(texts: Seq<Seq<char>>) -> Json {
    Json::Array(texts.map_values(|s: Seq<char>| Json::Text(s)))
}

/// The arguments of an operation as the interface writes them: the path; the path and
/// the content; the program and the list of its arguments; the address and an object
/// with the method, the headers by name and, where there is one, the body.
pub open spec fn written_arguments(operation: EffectOperation) -> Json {
    match operation {
        EffectOperation::ReadFile { path } => Json::Array(seq![Json::Text(path@)]),
        EffectOperation::WriteFile { path, content } => Json::Array(
            seq![Json::Text(path@), Json::Text(content@)],
        ),
        EffectOperation::Spawn { program, arguments } => Json::Array(
            seq![Json::Text(program@), texts_as_json(text::views(arguments@))],
        ),
        EffectOperation::Fetch { url, method, headers, body } => {
            let named = ("method"@, Json::Text(if method is Get { "GET"@ } else { "POST"@ }));
            let sent = (
                "headers"@,
                Json::Object(
                    headers@.map_values(|h: HttpHeader| (h.name@, Json::Text(h.value@))),
                ),
            );
            Json::Array(
                seq![
                    Json::Text(url@),
                    Json::Object(
                        match body {
                            Some(b) => seq![("body"@, Json::Text(b@)), sent, named],
                            None => seq![sent, named],
                        },
                    ),
                ],
            )
        },
    }
}

/// The operation of the interface that an effect is.
pub open spec fn capability_of(operation: EffectOperation) -> HostCapability {
    match operation {
        EffectOperation::ReadFile { .. } => HostCapability::ReadFile,
        EffectOperation::WriteFile { .. } => HostCapability::WriteFile,
        EffectOperation::Spawn { .. } => HostCapability::Spawn,
        EffectOperation::Fetch { .. } => HostCapability::Fetch,
    }
}

/// Two effects are the same one, part by part.
pub open spec fn same_effect(a: EffectOperation, b: EffectOperation) -> bool {
    match (a, b) {
        (EffectOperation::ReadFile { path: p }, EffectOperation::ReadFile { path: q }) => p@ == q@,
        (
            EffectOperation::WriteFile { path: p, content: c },
            EffectOperation::WriteFile { path: q, content: d },
        ) => p@ == q@ && c@ == d@,
        (
            EffectOperation::Spawn { program: p, arguments: c },
            EffectOperation::Spawn { program: q, arguments: d },
        ) => p@ == q@ && c@.len() == d@.len() && forall|i: int|
            0 <= i < c@.len() ==> (#[trigger] c@[i])@ == d@[i]@,
        (
            EffectOperation::Fetch { url: p, method: m, headers: h, body: c },
            EffectOperation::Fetch { url: q, method: n, headers: k, body: d },
        ) => {
            &&& p@ == q@
            &&& m == n
            &&& h@.len() == k@.len()
            &&& forall|i: int|
                0 <= i < h@.len() ==> (#[trigger] h@[i]).name@ == k@[i].name@ && h@[i].value@
                    == k@[i].value@
            &&& match (c, d) {
                (Some(x), Some(y)) => x@ == y@,
                (None, None) => true,
                _ => false,
            }
        },
        _ => false,
    }
}

proof fn lemma_option_names()
    ensures
        "method"@ != "headers"@,
        "method"@ != "body"@,
        "headers"@ != "body"@,
        "GET"@ != "POST"@,
{
    reveal_strlit("method");
    reveal_strlit("headers");
    reveal_strlit("body");
    reveal_strlit("GET");
    reveal_strlit("POST");
    assert("method"@.len() == 6);
    assert("headers"@.len() == 7);
    assert("body"@.len() == 4);
    assert("GET"@.len() == 3);
    assert("POST"@.len() == 4);
}

/// What is written by the interface is read back: the arguments of an operation decode
/// to that operation, each part in its place. A fetch with an address alone is a GET
/// without headers and without a body.
pub proof fn law_written_arguments_decode_to_their_operation(
    operation: EffectOperation,
    read: EffectOperation,
)
    ensures
        decoded(capability_of(operation), written_arguments(operation)) is Some,
        decoded(capability_of(operation), written_arguments(operation)) == Some(read@)
            ==> same_effect(read, operation),
        match operation {
            EffectOperation::Fetch { url, method, headers, body } => {
                let alone = Json::Array(seq![Json::Text(url@)]);
                method is Get && headers@.len() == 0 && body is None ==> {
                    &&& decoded(HostCapability::Fetch, alone) is Some
                    &&& decoded(HostCapability::Fetch, alone) == Some(read@) ==> same_effect(
                        read,
                        operation,
                    )
                }
            },
            _ => true,
        },
{
    lemma_option_names();
    match operation {
        EffectOperation::Spawn { program, arguments } => {
            let texts = text::views(arguments@);
            let values = texts_as_json(texts)->Array_0;
            assert forall|i: int| 0 <= i < values.len() implies json::as_text(
                #[trigger] values[i],
            ) is Some by {}
            assert(all_texts(values)->0 =~= texts);
            if let EffectOperation::Spawn { arguments: found, .. } = read {
                if text::views(found@) == texts {
                    assert(text::views(found@).len() == found@.len());
                    assert forall|i: int| 0 <= i < found@.len() implies (#[trigger] found@[i])@
                        == arguments@[i]@ by {
                        assert(text::views(found@)[i] == texts[i]);
                    }
                }
            }
        },
        EffectOperation::Fetch { url, method, headers, body } => {
            let pairs = headers@.map_values(|h: HttpHeader| (h.name@, Json::Text(h.value@)));
            let named = ("method"@, Json::Text(if method is Get { "GET"@ } else { "POST"@ }));
            let sent = ("headers"@, Json::Object(pairs));
            let entries = match body {
                Some(b) => seq![("body"@, Json::Text(b@)), sent, named],
                None => seq![sent, named],
            };
            let short = seq![sent, named];
            assert(short.drop_first() =~= seq![named]);
            assert(seq![named].drop_first() =~= Seq::empty());
            assert(json::entry(seq![named], "method"@) == Some(named.1));
            assert(json::entry(Seq::<(Seq<char>, Json)>::empty(), "body"@) is None);
            assert(json::entry(seq![named], "body"@) is None);
            assert(json::entry(short, "method"@) == Some(named.1));
            assert(json::entry(short, "headers"@) == Some(sent.1));
            assert(json::entry(short, "body"@) is None);
            if body is Some {
                assert(entries.drop_first() =~= short);
            }
            assert(json::entry(entries, "method"@) == Some(named.1));
            assert(json::entry(entries, "headers"@) == Some(sent.1));
            assert forall|i: int| 0 <= i < entries.len() implies is_fetch_option(
                (#[trigger] entries[i]).0,
            ) by {}
            assert forall|i: int| 0 <= i < pairs.len() implies json::as_text(
                (#[trigger] pairs[i]).1,
            ) is Some by {}
            let wanted = decoded_headers(Json::Object(pairs))->0;
            assert(wanted =~= header_views(headers@));
            if let EffectOperation::Fetch { headers: found, body: sent_body, .. } = read {
                assert(header_views(found@).len() == found@.len());
                if header_views(found@) == header_views(headers@) {
                    assert(header_views(headers@).len() == headers@.len());
                    assert forall|i: int| 0 <= i < found@.len() implies (
                    #[trigger] found@[i]).name@ == headers@[i].name@ && found@[i].value@
                        == headers@[i].value@ by {
                        assert(header_views(found@)[i] == header_views(headers@)[i]);
                    }
                }
                if headers@.len() == 0 {
                    assert(header_views(headers@) =~= Seq::empty());
                }
            }
        },
        _ => {},
    }
}

/// Arguments outside the interface are refused: anything but a list, a first argument
/// that is no text, too few or too many arguments, a content or a program argument that
/// is no text, and options of a fetch that are unknown or of the wrong kind.
pub proof fn law_other_arguments_are_refused(operation: HostCapability, arguments: Json)
    requires
        decoded(operation, arguments) is Some,
    ensures
        arguments is Array,
        ({
            let items = arguments->Array_0;
            &&& items.len() > 0 && items[0] is Text
            &&& operation is ReadFile ==> items.len() == 1
            &&& operation is WriteFile ==> items.len() == 2 && items[1] is Text
            &&& operation is Spawn ==> items.len() == 2 && items[1] is Array && forall|i: int|
                0 <= i < items[1]->Array_0.len() ==> #[trigger] items[1]->Array_0[i] is Text
            &&& operation is Fetch ==> items.len() == 1 || items.len() == 2
            &&& operation is Fetch && items.len() == 2 ==> items[1] is Object && forall|i: int|
                0 <= i < items[1]->Object_0.len() ==> {
                    let key = (#[trigger] items[1]->Object_0[i]).0;
                    key == "method"@ || key == "headers"@ || key == "body"@
                }
            &&& operation is Fetch && items.len() == 2 ==> {
                let entries = items[1]->Object_0;
                &&& json::entry(entries, "method"@) matches Some(v) ==> v == Json::Text("GET"@)
                    || v == Json::Text("POST"@)
                &&& json::entry(entries, "body"@) matches Some(v) ==> v is Text
                &&& json::entry(entries, "headers"@) matches Some(v) ==> v is Object && forall|
                    i: int,
                |
                    0 <= i < v->Object_0.len() ==> (#[trigger] v->Object_0[i]).1 is Text
            }
        }),
        decoded(operation, arguments)->0 is ReadFile <==> operation is ReadFile,
        decoded(operation, arguments)->0 is WriteFile <==> operation is WriteFile,
        decoded(operation, arguments)->0 is Spawn <==> operation is Spawn,
        decoded(operation, arguments)->0 is Fetch <==> operation is Fetch,
{
    let items = arguments->Array_0;
    if operation is Spawn {
        let values = items[1]->Array_0;
        assert forall|i: int| 0 <= i < values.len() implies #[trigger] values[i] is Text by {
            assert(json::as_text(values[i]) is Some);
        }
    }
    if operation is Fetch && items.len() == 2 {
        let entries = items[1]->Object_0;
        assert forall|i: int| 0 <= i < entries.len() implies {
            let key = (#[trigger] entries[i]).0;
            key == "method"@ || key == "headers"@ || key == "body"@
        } by {
            assert(is_fetch_option(entries[i].0));
        }
        if let Some(v) = json::entry(entries, "headers"@) {
            assert(decoded_headers(v) is Some);
            assert forall|i: int| 0 <= i < v->Object_0.len() implies (
            #[trigger] v->Object_0[i]).1 is Text by {
                assert(json::as_text(v->Object_0[i].1) is Some);
            }
        }
    }
}

/// What a script receives is what the host answered: the content of a file, nothing for a
/// write, and for a fetch or a program an object that names each part of the answer. An
/// error is never handed to a script as a result.
pub proof fn law_answers_reach_the_script_part_by_part(result: EffectResult)
    ensures
        match result {
            EffectResult::ReadFile { content } => effect_tree(result) == Some(
                Json::Text(content@),
            ),
            EffectResult::WriteFile => effect_tree(result) == Some(Json::Null),
            EffectResult::Fetch { status, headers, body, truncated } => effect_tree(result) matches
                Some(Json::Object(parts)) && parts.len() == 4 && json::entry(parts, "status"@)
                == Some(Json::Unsigned(status as u64)) && json::entry(parts, "body"@) == Some(
                Json::Text(body@),
            ) && json::entry(parts, "truncated"@) == Some(Json::Bool(truncated)) && (json::entry(
                parts,
                "headers"@,
            ) matches Some(Json::Object(sent)) && sent.len() == headers@.len() && forall|i: int|
                0 <= i < sent.len() ==> #[trigger] sent[i] == (
                    headers@[i].name@,
                    Json::Text(headers@[i].value@),
                )),
            EffectResult::Spawn {
                stdout,
                stderr,
                exit_code,
                timed_out,
                stdout_truncated,
                stderr_truncated,
            } => effect_tree(result) matches Some(Json::Object(parts)) && parts.len() == 6
                && json::entry(parts, "stdout"@) == Some(Json::Text(stdout@)) && json::entry(
                parts,
                "stderr"@,
            ) == Some(Json::Text(stderr@)) && json::entry(parts, "code"@) == Some(
                match exit_code {
                    None => Json::Null,
                    Some(code) => if code < 0 {
                        Json::Negative(code as i64)
                    } else {
                        Json::Unsigned(code as u64)
                    },
                },
            ) && json::entry(parts, "timed_out"@) == Some(Json::Bool(timed_out)) && json::entry(
                parts,
                "stdout_truncated"@,
            ) == Some(Json::Bool(stdout_truncated)) && json::entry(parts, "stderr_truncated"@)
                == Some(Json::Bool(stderr_truncated)),
            EffectResult::ProposalAccepted => effect_tree(result) is None,
            EffectResult::Error(_) => effect_tree(result) is None,
        },
{
    match result {
        EffectResult::Fetch { headers, .. } => {
            let parts = effect_tree(result)->0->Object_0;
            reveal_strlit("status");
            reveal_strlit("headers");
            reveal_strlit("body");
            reveal_strlit("truncated");
            assert("status"@.len() == 6 && "headers"@.len() == 7 && "body"@.len() == 4
                && "truncated"@.len() == 9);
            lemma_entry_at(parts, 0);
            lemma_entry_at(parts, 1);
            lemma_entry_at(parts, 2);
            lemma_entry_at(parts, 3);
            let sent = header_entries(header_views(headers@));
            assert(header_views(headers@).len() == headers@.len());
            assert forall|i: int| 0 <= i < sent.len() implies #[trigger] sent[i] == (
                headers@[i].name@,
                Json::Text(headers@[i].value@),
            ) by {
                assert(header_views(headers@)[i] == headers@[i]@);
            }
        },
        EffectResult::Spawn { .. } => {
            let parts = effect_tree(result)->0->Object_0;
            reveal_strlit("stdout");
            reveal_strlit("stderr");
            reveal_strlit("code");
            reveal_strlit("timed_out");
            reveal_strlit("stdout_truncated");
            reveal_strlit("stderr_truncated");
            assert("stdout"@.len() == 6 && "stderr"@.len() == 6 && "code"@.len() == 4
                && "timed_out"@.len() == 9 && "stdout_truncated"@.len() == 16
                && "stderr_truncated"@.len() == 16);
            assert("stdout"@[3] == 'o' && "stderr"@[3] == 'e');
            assert("stdout_truncated"@[3] == 'o' && "stderr_truncated"@[3] == 'e');
            lemma_entry_at(parts, 0);
            lemma_entry_at(parts, 1);
            lemma_entry_at(parts, 2);
            lemma_entry_at(parts, 3);
            lemma_entry_at(parts, 4);
            lemma_entry_at(parts, 5);
        },
        _ => {},
    }
}

proof fn lemma_entry_at(entries: Seq<(Seq<char>, Json)>, i: int)
    requires
        0 <= i < entries.len(),
        forall|j: int| 0 <= j < i ==> (#[trigger] entries[j]).0 != entries[i].0,
    ensures
        json::entry(entries, entries[i].0) == Some(entries[i].1),
    decreases i,
{
    if i > 0 {
        let rest = entries.drop_first();
        assert(rest[i - 1] == entries[i]);
        assert forall|j: int| 0 <= j < i - 1 implies (#[trigger] rest[j]).0 != rest[i - 1].0 by {
            assert(rest[j] == entries[j + 1]);
        }
        assert(entries[0].0 != entries[i].0);
        lemma_entry_at(rest, i - 1);
    }
}

/// Headers as the entries of an object.
pub open spec fn header_entries(headers: Seq<HeaderModel>) -> Seq<(Seq<char>, Json)> {
    headers.map_values(|h: HeaderModel| (h.name, Json::Text(h.value)))
}

/// A signed number as a JSON number.
pub open spec fn number_tree(n: int) -> Json {
    if n < 0 {
        Json::Negative(n as i64)
    } else {
        Json::Unsigned(n as u64)
    }
}

/// What a script receives for the answer of the dispatcher; `None` where it is
/// refused.
pub open spec fn effect_tree(result: EffectResult) -> Option<Json> {
    match result {
        EffectResult::ReadFile { content } => Some(Json::Text(content@)),
        EffectResult::WriteFile => Some(Json::Null),
        EffectResult::Fetch { status, headers, body, truncated } => Some(
            Json::Object(
                seq![
                    ("status"@, Json::Unsigned(status as u64)),
                    ("headers"@, Json::Object(header_entries(header_views(headers@)))),
                    ("body"@, Json::Text(body@)),
                    ("truncated"@, Json::Bool(truncated)),
                ],
            ),
        ),
        EffectResult::Spawn {
            stdout,
            stderr,
            exit_code,
            timed_out,
            stdout_truncated,
            stderr_truncated,
        } => Some(
            Json::Object(
                seq![
                    ("stdout"@, Json::Text(stdout@)),
                    ("stderr"@, Json::Text(stderr@)),
                    (
                        "code"@,
                        match exit_code {
                            Some(code) => number_tree(code as int),
                            None => Json::Null,
                        },
                    ),
                    ("timed_out"@, Json::Bool(timed_out)),
                    ("stdout_truncated"@, Json::Bool(stdout_truncated)),
                    ("stderr_truncated"@, Json::Bool(stderr_truncated)),
                ],
            ),
        ),
        EffectResult::ProposalAccepted => None,
        EffectResult::Error(_) => None,
    }
}

fn push_entry(entries: &mut Vec<(String, JsonValue)>, key: &str, value: JsonValue)
    ensures
        json::entry_views(final(entries)@) == json::entry_views(old(entries)@).push(
            (key@, value@),
        ),
{
    let ghost before = json::entry_views(entries@);
    entries.push((key.to_owned(), value));
    assert(json::entry_views(entries@) =~= before.push((key@, value@)));
}

fn no_entries() -> (r: Vec<(String, JsonValue)>)
    ensures
        json::entry_views(r@) == Seq::<(Seq<char>, Json)>::empty(),
{
    let r: Vec<(String, JsonValue)> = Vec::new();
    assert(json::entry_views(r@) =~= Seq::empty());
    r
}

fn make_header_entries(headers: &Vec<HttpHeader>) -> (r: Vec<(String, JsonValue)>)
    ensures
        json::entry_views(r@) == header_entries(header_views(headers@)),
{
    let ghost wanted = header_entries(header_views(headers@));
    let mut out = no_entries();
    let mut i: usize = 0;
    while i < headers.len()
        invariant
            i <= headers@.len(),
            wanted == header_entries(header_views(headers@)),
            json::entry_views(out@) =~= wanted.take(i as int),
        decreases headers@.len() - i,
    {
        assert(header_views(headers@)[i as int] == headers@[i as int]@);
        push_entry(&mut out, &headers[i].name, JsonValue::Text(headers[i].value.clone()));
        i = i + 1;
    }
    assert(wanted.take(wanted.len() as int) =~= wanted);
    out
}

/// Builds what a script receives for the answer of the dispatcher.
pub fn effect_result_tree(result: EffectResult) -> (r: Result<JsonValue, CapabilityError>)
    ensures
        match r {
            Ok(v) => effect_tree(result) == Some(v@),
            Err(e) => effect_tree(result) is None && e@ == CapabilityFault::DispatchDenied,
        },
{
    match result {
        EffectResult::ReadFile { content } => Ok(JsonValue::Text(content)),
        EffectResult::WriteFile => Ok(JsonValue::Null),
        EffectResult::Fetch { status, headers, body, truncated } => {
            let header_entries_vec = make_header_entries(&headers);
            proof {
                json::lemma_object_view(header_entries_vec);
            }
            let mut entries = no_entries();
            push_entry(&mut entries, "status", JsonValue::Unsigned(status as u64));
            push_entry(&mut entries, "headers", JsonValue::Object(header_entries_vec));
            push_entry(&mut entries, "body", JsonValue::Text(body));
            push_entry(&mut entries, "truncated", JsonValue::Bool(truncated));
            proof {
                json::lemma_object_view(entries);
                assert(json::entry_views(entries@) =~= effect_tree(result)->0->Object_0);
            }
            Ok(JsonValue::Object(entries))
        },
        EffectResult::Spawn {
            stdout,
            stderr,
            exit_code,
            timed_out,
            stdout_truncated,
            stderr_truncated,
        } => {
            let code = match exit_code {
                None => JsonValue::Null,
                Some(code) => if code < 0 {
                    JsonValue::Negative(code as i64)
                } else {
                    JsonValue::Unsigned(code as u64)
                },
            };
            let mut entries = no_entries();
            push_entry(&mut entries, "stdout", JsonValue::Text(stdout));
            push_entry(&mut entries, "stderr", JsonValue::Text(stderr));
            push_entry(&mut entries, "code", code);
            push_entry(&mut entries, "timed_out", JsonValue::Bool(timed_out));
            push_entry(&mut entries, "stdout_truncated", JsonValue::Bool(stdout_truncated));
            push_entry(&mut entries, "stderr_truncated", JsonValue::Bool(stderr_truncated));
            proof {
                json::lemma_object_view(entries);
                assert(json::entry_views(entries@) =~= effect_tree(result)->0->Object_0);
            }
            Ok(JsonValue::Object(entries))
        },
        EffectResult::ProposalAccepted => Err(CapabilityError::DispatchDenied),
        EffectResult::Error(_) => Err(CapabilityError::DispatchDenied),
    }
}

/// Encodes the answer of the dispatcher for a script.
pub fn encode_effect_result(result: EffectResult) -> (r: Result<String, CapabilityError>)
    ensures
        match effect_tree(result) {
            Some(tree) => r is Ok && r->Ok_0@ == json::json_rendered(tree),
            None => r is Err && r->Err_0@ == CapabilityFault::DispatchDenied,
        },
{
    match effect_result_tree(result) {
        Err(e) => Err(e),
        Ok(tree) => match json::render_json(tree) {
            Ok(encoded) => Ok(encoded),
            Err(_) => Err(CapabilityError::DispatchDenied),
        },
    }
}

/// An authorization that waits for its invocation.
#[derive(Debug, Clone)]
pub struct PreparedInvocation {
    pub handle: u64,
    pub authorization: InvocationAuthorization,
}

/// The contents of a [`PreparedInvocation`].
#[verifier::ext_equal]
pub struct PreparedModel {
    pub handle: u64,
    pub authorization: AuthorizationModel,
}

impl View for PreparedInvocation {
    type V = PreparedModel;

    open spec fn view(&self) -> PreparedModel {
        PreparedModel { handle: self.handle, authorization: self.authorization@ }
    }
}

/// An invocation that runs.
#[derive(Debug, Clone)]
pub struct ActiveInvocation {
    pub token: u64,
    pub authorization: InvocationAuthorization,
}

/// The contents of an [`ActiveInvocation`].
#[verifier::ext_equal]
pub struct ActiveModel {
    pub token: u64,
    pub authorization: AuthorizationModel,
}

impl View for ActiveInvocation {
    type V = ActiveModel;

    open spec fn view(&self) -> ActiveModel {
        ActiveModel { token: self.token, authorization: self.authorization@ }
    }
}

pub open spec fn prepared_views(s: Seq<PreparedInvocation>) -> Seq<PreparedModel> {
    s.map_values(|p: PreparedInvocation| p@)
}

pub open spec fn active_views(s: Seq<ActiveInvocation>) -> Seq<ActiveModel> {
    s.map_values(|a: ActiveInvocation| a@)
}

/// The invocations of one step: those prepared, those active, and every grant that
/// was ever handed out in the step.
#[derive(Debug, Clone)]
pub struct InvocationCapabilityRuntime {
    pub max_effects_per_step: u32,
    pub next_prepared_handle: u64,
    pub next_token: u64,
    pub next_effect_ordinal: u32,
    pub prepared: Vec<PreparedInvocation>,
    pub active: Vec<ActiveInvocation>,
    pub bound_handle: Option<u64>,
    pub seen_grants: Vec<String>,
}

/// The contents of an [`InvocationCapabilityRuntime`].
#[verifier::ext_equal]
pub struct RuntimeModel {
    pub max_effects_per_step: u32,
    pub next_prepared_handle: u64,
    pub next_token: u64,
    pub next_effect_ordinal: u32,
    pub prepared: Seq<PreparedModel>,
    pub active: Seq<ActiveModel>,
    pub bound_handle: Option<u64>,
    pub seen_grants: Seq<Seq<char>>,
}

impl View for InvocationCapabilityRuntime {
    type V = RuntimeModel;

    open spec fn view(&self) -> RuntimeModel {
        RuntimeModel {
            max_effects_per_step: self.max_effects_per_step,
            next_prepared_handle: self.next_prepared_handle,
            next_token: self.next_token,
            next_effect_ordinal: self.next_effect_ordinal,
            prepared: prepared_views(self.prepared@),
            active: active_views(self.active@),
            bound_handle: self.bound_handle,
            seen_grants: text::views(self.seen_grants@),
        }
    }
}

pub open spec fn prepared_as(handle: u64) -> spec_fn(PreparedModel) -> bool {
    |p: PreparedModel| p.handle == handle
}

pub open spec fn active_as(token: u64) -> spec_fn(ActiveModel) -> bool {
    |a: ActiveModel| a.token == token
}

/// The ids of a list of grants.
pub open spec fn grant_ids(grants: Seq<GrantModel>) -> Seq<Seq<char>> {
    grants.map_values(|g: GrantModel| g.grant_id)
}

impl RuntimeModel {
    /// Handles and tokens were all issued by the counters, each once.
    pub open spec fn well_formed(self) -> bool {
        &&& forall|i: int, j: int|
            0 <= i < j < self.prepared.len() ==> (#[trigger] self.prepared[i]).handle != (
            #[trigger] self.prepared[j]).handle
        &&& forall|i: int|
            0 <= i < self.prepared.len() ==> (#[trigger] self.prepared[i]).handle
                <= self.next_prepared_handle
        &&& forall|i: int, j: int|
            0 <= i < j < self.active.len() ==> (#[trigger] self.active[i]).token != (
            #[trigger] self.active[j]).token
        &&& forall|i: int|
            0 <= i < self.active.len() ==> (#[trigger] self.active[i]).token <= self.next_token
    }

    /// An authorization reuses an invocation that is prepared or active, or a grant
    /// that was handed out before.
    pub open spec fn reuses(self, a: AuthorizationModel) -> bool {
        ||| exists|i: int|
            0 <= i < self.prepared.len() && (
            #[trigger] self.prepared[i]).authorization.invocation_id == a.invocation_id
        ||| exists|i: int|
            0 <= i < self.active.len() && (#[trigger] self.active[i]).authorization.invocation_id
                == a.invocation_id
        ||| exists|i: int|
            0 <= i < a.grants.len() && self.seen_grants.contains((#[trigger] a.grants[i]).grant_id)
    }

    /// What preparing an authorization comes to.
    pub open spec fn prepare(self, a: AuthorizationModel) -> Result<
        (u64, RuntimeModel),
        CapabilityFault,
    > {
        if self.reuses(a) || self.next_prepared_handle == u64::MAX {
            Err(CapabilityFault::InvalidInvocation)
        } else {
            let handle = (self.next_prepared_handle + 1) as u64;
            Ok(
                (
                    handle,
                    RuntimeModel {
                        next_prepared_handle: handle,
                        prepared: self.prepared.push(PreparedModel { handle, authorization: a }),
                        seen_grants: self.seen_grants + grant_ids(a.grants),
                        ..self
                    },
                ),
            )
        }
    }

    /// What activating the prepared authorization at `at` comes to. The attribution
    /// is validation only; an authorization is spent even where the tokens run out.
    pub open spec fn activate(self, at: int, attribution: AttributionModel) -> (
        Result<u64, CapabilityFault>,
        RuntimeModel,
    ) {
        if self.prepared[at].authorization.attribution != attribution {
            (Err(CapabilityFault::InvalidInvocation), self)
        } else {
            let spent = RuntimeModel { prepared: self.prepared.remove(at), ..self };
            if self.next_token == u64::MAX {
                (Err(CapabilityFault::InvalidInvocation), spent)
            } else {
                let token = (self.next_token + 1) as u64;
                (
                    Ok(token),
                    RuntimeModel {
                        next_token: token,
                        active: self.active.push(
                            ActiveModel { token, authorization: self.prepared[at].authorization },
                        ),
                        ..spent
                    },
                )
            }
        }
    }

    /// What beginning a prepared invocation comes to.
    pub open spec fn begin(self, handle: u64, attribution: AttributionModel) -> (
        Result<u64, CapabilityFault>,
        RuntimeModel,
    ) {
        match crate::store::position(self.prepared, prepared_as(handle)) {
            None => (Err(CapabilityFault::InvalidInvocation), self),
            Some(at) => self.activate(at, attribution),
        }
    }

    /// What claiming the bound invocation comes to. The binding is spent whatever
    /// follows.
    pub open spec fn claim_bound(self, attribution: AttributionModel) -> (
        Result<u64, CapabilityFault>,
        RuntimeModel,
    ) {
        match self.bound_handle {
            None => (Err(CapabilityFault::InvalidInvocation), self),
            Some(handle) => (RuntimeModel { bound_handle: None, ..self }).begin(
                handle,
                attribution,
            ),
        }
    }

    /// What dispatching an effect comes to.
    pub open spec fn dispatch(
        self,
        token: u64,
        operation: HostCapability,
        decoded_operation: Option<OperationModel>,
    ) -> Result<(EffectModel, RuntimeModel), CapabilityFault> {
        match crate::store::position(self.active, active_as(token)) {
            None => Err(CapabilityFault::Revoked),
            Some(at) => {
                let a = self.active[at].authorization;
                match grant_for(a.grants, operation) {
                    None => Err(CapabilityFault::Revoked),
                    Some(grant_id) => match decoded_operation {
                        None => Err(CapabilityFault::InvalidArguments),
                        Some(wanted) => if self.next_effect_ordinal >= self.max_effects_per_step {
                            Err(CapabilityFault::DispatchDenied)
                        } else {
                            Ok(
                                (
                                    EffectModel {
                                        invocation_id: a.invocation_id,
                                        effect_ordinal: self.next_effect_ordinal,
                                        grant_id,
                                        artifact_id: a.attribution.skill_id,
                                        export: a.attribution.export_name,
                                        operation: wanted,
                                    },
                                    RuntimeModel {
                                        next_effect_ordinal: (self.next_effect_ordinal + 1) as u32,
                                        ..self
                                    },
                                ),
                            )
                        },
                    },
                }
            },
        }
    }

    /// The runtime without an invocation.
    pub open spec fn without_invocation(self, invocation_id: Seq<char>) -> RuntimeModel {
        let bound_to_it = match self.bound_handle {
            Some(handle) => exists|i: int|
                0 <= i < self.prepared.len() && (#[trigger] self.prepared[i]).handle == handle
                    && self.prepared[i].authorization.invocation_id == invocation_id,
            None => false,
        };
        RuntimeModel {
            bound_handle: if bound_to_it {
                None
            } else {
                self.bound_handle
            },
            prepared: self.prepared.filter(prepared_for_other(invocation_id)),
            active: self.active.filter(active_for_other(invocation_id)),
            ..self
        }
    }
}

/// A call that changes a runtime.
pub enum RuntimeCall {
    Prepare(AuthorizationModel),
    Begin { handle: u64, attribution: AttributionModel },
    Bind(u64),
    Unbind(u64),
    ClaimBound(AttributionModel),
    Dispatch {
        token: u64,
        operation: HostCapability,
        decoded_operation: Option<OperationModel>,
    },
    Finish(u64),
    Cancel(Seq<char>),
    Recycle,
}

impl RuntimeModel {
    /// A runtime without invocations that allows the given number of effects.
    pub open spec fn fresh(max_effects_per_step: u32) -> RuntimeModel {
        RuntimeModel {
            max_effects_per_step,
            next_prepared_handle: 0,
            next_token: 0,
            next_effect_ordinal: 0,
            prepared: Seq::empty(),
            active: Seq::empty(),
            bound_handle: None,
            seen_grants: Seq::empty(),
        }
    }

    /// A handle can be bound: it is prepared, and nothing is bound.
    pub open spec fn can_bind(self, handle: u64) -> bool {
        self.bound_handle is None && crate::store::position(
            self.prepared,
            prepared_as(handle),
        ) is Some
    }

    /// An invocation is prepared or active.
    pub open spec fn is_open(self, invocation_id: Seq<char>) -> bool {
        ||| exists|i: int|
            0 <= i < self.prepared.len() && (
            #[trigger] self.prepared[i]).authorization.invocation_id == invocation_id
        ||| exists|i: int|
            0 <= i < self.active.len() && (#[trigger] self.active[i]).authorization.invocation_id
                == invocation_id
    }

    /// The runtime after a call.
    pub open spec fn after(self, call: RuntimeCall) -> RuntimeModel {
        match call {
            RuntimeCall::Prepare(a) => match self.prepare(a) {
                Ok((_, next)) => next,
                Err(_) => self,
            },
            RuntimeCall::Begin { handle, attribution } => self.begin(handle, attribution).1,
            RuntimeCall::Bind(handle) => if self.can_bind(handle) {
                RuntimeModel { bound_handle: Some(handle), ..self }
            } else {
                self
            },
            RuntimeCall::Unbind(handle) => if self.bound_handle == Some(handle) {
                RuntimeModel { bound_handle: None, ..self }
            } else {
                self
            },
            RuntimeCall::ClaimBound(attribution) => self.claim_bound(attribution).1,
            RuntimeCall::Dispatch { token, operation, decoded_operation } => {
                match self.dispatch(token, operation, decoded_operation) {
                    Ok((_, next)) => next,
                    Err(_) => self,
                }
            },
            RuntimeCall::Finish(token) => RuntimeModel {
                active: self.active.filter(active_other_than(token)),
                ..self
            },
            RuntimeCall::Cancel(invocation_id) => self.without_invocation(invocation_id),
            RuntimeCall::Recycle => RuntimeModel {
                next_prepared_handle: self.next_prepared_handle,
                next_token: self.next_token,
                ..RuntimeModel::fresh(self.max_effects_per_step)
            },
        }
    }
}

/// A new runtime after a history of calls.
pub open spec fn runtime_run(max_effects_per_step: u32, calls: Seq<RuntimeCall>) -> RuntimeModel
    decreases calls.len(),
{
    if calls.len() == 0 {
        RuntimeModel::fresh(max_effects_per_step)
    } else {
        runtime_run(max_effects_per_step, calls.drop_last()).after(calls.last())
    }
}

/// The grants that a history of calls has handed out since the runtime was last
/// recycled, in order.
pub open spec fn granted(max_effects_per_step: u32, calls: Seq<RuntimeCall>) -> Seq<Seq<char>>
    decreases calls.len(),
{
    if calls.len() == 0 {
        Seq::empty()
    } else {
        let before = granted(max_effects_per_step, calls.drop_last());
        let m = runtime_run(max_effects_per_step, calls.drop_last());
        match calls.last() {
            RuntimeCall::Recycle => Seq::empty(),
            RuntimeCall::Prepare(a) => if m.prepare(a) is Ok {
                before + grant_ids(a.grants)
            } else {
                before
            },
            _ => before,
        }
    }
}

/// The handles that a history of calls has issued, in order.
pub open spec fn issued(max_effects_per_step: u32, calls: Seq<RuntimeCall>) -> Seq<u64>
    decreases calls.len(),
{
    if calls.len() == 0 {
        Seq::empty()
    } else {
        let before = issued(max_effects_per_step, calls.drop_last());
        let m = runtime_run(max_effects_per_step, calls.drop_last());
        match calls.last() {
            RuntimeCall::Prepare(a) => match m.prepare(a) {
                Ok((handle, _)) => before.push(handle),
                Err(_) => before,
            },
            _ => before,
        }
    }
}

proof fn lemma_runtime_history(max_effects_per_step: u32, calls: Seq<RuntimeCall>)
    ensures
        runtime_run(max_effects_per_step, calls).seen_grants == granted(
            max_effects_per_step,
            calls,
        ),
        runtime_run(max_effects_per_step, calls).next_prepared_handle == issued(
            max_effects_per_step,
            calls,
        ).len(),
        forall|i: int|
            0 <= i < issued(max_effects_per_step, calls).len() ==> #[trigger] issued(
                max_effects_per_step,
                calls,
            )[i] == i + 1,
    decreases calls.len(),
{
    if calls.len() > 0 {
        lemma_runtime_history(max_effects_per_step, calls.drop_last());
    }
}

/// Over the whole life of a runtime an authorization is taken in exactly where its
/// invocation is not open and none of its grants was handed out since the runtime was
/// last recycled, as long as there are handles left; and the handle it gets was never
/// issued before, recycled or not.
pub proof fn law_grants_and_handles_are_fresh(
    max_effects_per_step: u32,
    calls: Seq<RuntimeCall>,
    a: AuthorizationModel,
)
    ensures
        ({
            let m = runtime_run(max_effects_per_step, calls);
            let before = issued(max_effects_per_step, calls);
            let spent = granted(max_effects_per_step, calls);
            &&& m.prepare(a) is Ok <==> {
                &&& !m.is_open(a.invocation_id)
                &&& before.len() < u64::MAX
                &&& forall|i: int|
                    0 <= i < a.grants.len() ==> !spent.contains((#[trigger] a.grants[i]).grant_id)
            }
            &&& m.prepare(a) matches Ok((handle, _)) ==> handle == before.len() + 1
                && !before.contains(handle)
        }),
{
    lemma_runtime_history(max_effects_per_step, calls);
}

pub open spec fn prepared_for_other(invocation_id: Seq<char>) -> spec_fn(PreparedModel) -> bool {
    |p: PreparedModel| p.authorization.invocation_id != invocation_id
}

pub open spec fn active_for_other(invocation_id: Seq<char>) -> spec_fn(ActiveModel) -> bool {
    |a: ActiveModel| a.authorization.invocation_id != invocation_id
}

pub open spec fn active_other_than(token: u64) -> spec_fn(ActiveModel) -> bool {
    |a: ActiveModel| a.token != token
}

fn same_manifest(a: &CapabilityManifest, b: &CapabilityManifest) -> (r: bool)
    ensures
        r == (a@ == b@),
{
    if a.tier != b.tier || a.allowed_hosts.len() != b.allowed_hosts.len() {
        return false;
    }
    let mut i: usize = 0;
    while i < a.allowed_hosts.len()
        invariant
            i <= a.allowed_hosts@.len(),
            a.tier == b.tier,
            a.allowed_hosts@.len() == b.allowed_hosts@.len(),
            forall|j: int| 0 <= j < i ==> a.allowed_hosts@[j] == b.allowed_hosts@[j],
        decreases a.allowed_hosts@.len() - i,
    {
        if a.allowed_hosts[i] != b.allowed_hosts[i] {
            assert(a@.allowed_hosts[i as int] != b@.allowed_hosts[i as int]);
            return false;
        }
        i = i + 1;
    }
    assert(a.allowed_hosts@ =~= b.allowed_hosts@);
    true
}

impl InvocationCapabilityRuntime {
    /// A runtime without invocations that allows the given number of effects.
    pub fn new(max_effects_per_step: u32) -> (r: InvocationCapabilityRuntime)
        ensures
            r@ == RuntimeModel::fresh(max_effects_per_step),
            r@.well_formed(),
    {
        let r = InvocationCapabilityRuntime {
            max_effects_per_step,
            next_prepared_handle: 0,
            next_token: 0,
            next_effect_ordinal: 0,
            prepared: Vec::new(),
            active: Vec::new(),
            bound_handle: None,
            seen_grants: Vec::new(),
        };
        proof {
            assert(r@.prepared =~= Seq::empty());
            assert(r@.active =~= Seq::empty());
            assert(r@.seen_grants =~= Seq::empty());
        }
        r
    }

    fn is_reused(&self, authorization: &InvocationAuthorization) -> (r: bool)
        ensures
            r == self@.reuses(authorization@),
    {
        let ghost m = self@;
        let mut i: usize = 0;
        while i < self.prepared.len()
            invariant
                i <= self.prepared@.len(),
                m == self@,
                forall|j: int|
                    0 <= j < i ==> (#[trigger] m.prepared[j]).authorization.invocation_id
                        != authorization@.invocation_id,
            decreases self.prepared@.len() - i,
        {
            assert(m.prepared[i as int] == self.prepared@[i as int]@);
            if text::same(
                &self.prepared[i].authorization.invocation_id,
                &authorization.invocation_id,
            ) {
                return true;
            }
            i = i + 1;
        }
        let mut k: usize = 0;
        while k < self.active.len()
            invariant
                k <= self.active@.len(),
                m == self@,
                forall|j: int|
                    0 <= j < k ==> (#[trigger] m.active[j]).authorization.invocation_id
                        != authorization@.invocation_id,
            decreases self.active@.len() - k,
        {
            assert(m.active[k as int] == self.active@[k as int]@);
            if text::same(
                &self.active[k].authorization.invocation_id,
                &authorization.invocation_id,
            ) {
                return true;
            }
            k = k + 1;
        }
        let mut g: usize = 0;
        while g < authorization.grants.len()
            invariant
                g <= authorization.grants@.len(),
                m == self@,
                forall|j: int|
                    0 <= j < g ==> !m.seen_grants.contains(
                        (#[trigger] authorization@.grants[j]).grant_id,
                    ),
            decreases authorization.grants@.len() - g,
        {
            assert(authorization@.grants[g as int] == authorization.grants@[g as int]@);
            if text::contains_text(&self.seen_grants, &authorization.grants[g].grant_id) {
                return true;
            }
            g = g + 1;
        }
        false
    }

    /// Takes an authorization in and returns the handle under which it can be
    /// begun, once.
    pub fn prepare(&mut self, authorization: InvocationAuthorization) -> (r: Result<
        u64,
        CapabilityError,
    >)
        ensures
            match old(self)@.prepare(authorization@) {
                Ok((handle, next)) => r is Ok && r->Ok_0 == handle && final(self)@ == next,
                Err(f) => r is Err && r->Err_0@ == f && final(self)@ == old(self)@,
            },
            final(self)@ == old(self)@.after(RuntimeCall::Prepare(authorization@)),
            old(self)@.well_formed() ==> final(self)@.well_formed(),
    {
        if self.is_reused(&authorization) {
            return Err(CapabilityError::InvalidInvocation);
        }
        if self.next_prepared_handle == u64::MAX {
            return Err(CapabilityError::InvalidInvocation);
        }
        let ghost before = self@;
        let handle: u64 = self.next_prepared_handle + 1;
        let ghost ids = grant_ids(authorization@.grants);
        let mut g: usize = 0;
        while g < authorization.grants.len()
            invariant
                g <= authorization.grants@.len(),
                ids == grant_ids(authorization@.grants),
                self@ == (RuntimeModel {
                    seen_grants: before.seen_grants + ids.take(g as int),
                    ..before
                }),
                self.next_prepared_handle == before.next_prepared_handle,
            decreases authorization.grants@.len() - g,
        {
            let ghost seen = text::views(self.seen_grants@);
            assert(authorization@.grants[g as int] == authorization.grants@[g as int]@);
            let id = authorization.grants[g].grant_id.clone();
            self.seen_grants.push(id);
            proof {
                assert(text::views(self.seen_grants@) =~= seen.push(id@));
                assert(ids.take(g + 1) =~= ids.take(g as int).push(id@));
                assert(before.seen_grants + ids.take(g + 1) =~= (before.seen_grants + ids.take(
                    g as int,
                )).push(id@));
            }
            g = g + 1;
        }
        proof {
            assert(ids.take(ids.len() as int) =~= ids);
        }
        self.next_prepared_handle = handle;
        let ghost added = authorization@;
        self.prepared.push(PreparedInvocation { handle, authorization });
        proof {
            assert(self@.prepared =~= before.prepared.push(
                PreparedModel { handle, authorization: added },
            ));
        }
        Ok(handle)
    }

    fn find_prepared(&self, handle: u64) -> (r: Option<usize>)
        ensures
            match r {
                Some(i) => i < self.prepared@.len() && crate::store::position(
                    self@.prepared,
                    prepared_as(handle),
                ) == Some(i as int),
                None => crate::store::position(self@.prepared, prepared_as(handle)) is None,
            },
    {
        let ghost p = prepared_as(handle);
        let mut i: usize = 0;
        while i < self.prepared.len()
            invariant
                i <= self.prepared@.len(),
                p == prepared_as(handle),
                forall|j: int| 0 <= j < i ==> !p(#[trigger] self@.prepared[j]),
            decreases self.prepared@.len() - i,
        {
            assert(self@.prepared[i as int] == self.prepared@[i as int]@);
            if self.prepared[i].handle == handle {
                proof {
                    crate::store::lemma_position_found(self@.prepared, p, i as int);
                }
                return Some(i);
            }
            i = i + 1;
        }
        proof {
            crate::store::lemma_position_missing(self@.prepared, p);
        }
        None
    }

    fn activate(
        &mut self,
        position: usize,
        skill_id: &str,
        export_name: &str,
        manifest: &CapabilityManifest,
    ) -> (r: Result<u64, CapabilityError>)
        requires
            position < old(self).prepared@.len(),
        ensures
            ({
                let (result, next) = old(self)@.activate(
                    position as int,
                    AttributionModel {
                        skill_id: skill_id@,
                        export_name: export_name@,
                        manifest: manifest@,
                    },
                );
                &&& final(self)@ == next
                &&& match result {
                    Ok(token) => r is Ok && r->Ok_0 == token,
                    Err(f) => r is Err && r->Err_0@ == f,
                }
            }),
            old(self)@.well_formed() ==> final(self)@.well_formed(),
    {
        let ghost before = self@;
        let prepared = &self.prepared[position];
        assert(before.prepared[position as int] == prepared@);
        if !text::same(&prepared.authorization.attribution.skill_id, skill_id) || !text::same(
            &prepared.authorization.attribution.export_name,
            export_name,
        ) || !same_manifest(&prepared.authorization.attribution.manifest, manifest) {
            return Err(CapabilityError::InvalidInvocation);
        }
        let taken = self.prepared.remove(position);
        proof {
            assert(self@.prepared =~= before.prepared.remove(position as int));
        }
        if self.next_token == u64::MAX {
            return Err(CapabilityError::InvalidInvocation);
        }
        let token: u64 = self.next_token + 1;
        self.next_token = token;
        let ghost model = taken.authorization@;
        self.active.push(ActiveInvocation { token, authorization: taken.authorization });
        proof {
            assert(self@.active =~= before.active.push(
                ActiveModel { token, authorization: model },
            ));
        }
        Ok(token)
    }

    /// Activates exactly the prepared handle; the artifact metadata is validation
    /// only.
    pub fn begin(
        &mut self,
        handle: u64,
        skill_id: &str,
        export_name: &str,
        manifest: &CapabilityManifest,
    ) -> (r: Result<u64, CapabilityError>)
        ensures
            ({
                let (result, next) = old(self)@.begin(
                    handle,
                    AttributionModel {
                        skill_id: skill_id@,
                        export_name: export_name@,
                        manifest: manifest@,
                    },
                );
                &&& final(self)@ == next
                &&& match result {
                    Ok(token) => r is Ok && r->Ok_0 == token,
                    Err(f) => r is Err && r->Err_0@ == f,
                }
            }),
            final(self)@ == old(self)@.after(
                RuntimeCall::Begin {
                    handle,
                    attribution: AttributionModel {
                        skill_id: skill_id@,
                        export_name: export_name@,
                        manifest: manifest@,
                    },
                },
            ),
            old(self)@.well_formed() ==> final(self)@.well_formed(),
    {
        match self.find_prepared(handle) {
            None => Err(CapabilityError::InvalidInvocation),
            Some(position) => self.activate(position, skill_id, export_name, manifest),
        }
    }

    /// Binds one exact prepared handle for the immediately following call.
    pub fn bind(&mut self, handle: u64) -> (r: Result<(), CapabilityError>)
        ensures
            final(self)@ == old(self)@.after(RuntimeCall::Bind(handle)),
            match r {
                Ok(()) => old(self)@.can_bind(handle),
                Err(e) => !old(self)@.can_bind(handle) && e@ == CapabilityFault::InvalidInvocation,
            },
            old(self)@.well_formed() ==> final(self)@.well_formed(),
    {
        if self.bound_handle.is_some() || self.find_prepared(handle).is_none() {
            return Err(CapabilityError::InvalidInvocation);
        }
        self.bound_handle = Some(handle);
        Ok(())
    }

    /// Ends a binding, where it still stands.
    pub fn unbind(&mut self, handle: u64)
        ensures
            final(self)@ == old(self)@.after(RuntimeCall::Unbind(handle)),
            old(self)@.well_formed() ==> final(self)@.well_formed(),
    {
        if let Some(bound) = self.bound_handle {
            if bound == handle {
                self.bound_handle = None;
            }
        }
    }

    /// Consumes only the explicitly bound handle. Artifact metadata is validation,
    /// never an authority selector.
    pub fn claim_bound(
        &mut self,
        skill_id: &str,
        export_name: &str,
        manifest: &CapabilityManifest,
    ) -> (r: Result<u64, CapabilityError>)
        ensures
            ({
                let (result, next) = old(self)@.claim_bound(
                    AttributionModel {
                        skill_id: skill_id@,
                        export_name: export_name@,
                        manifest: manifest@,
                    },
                );
                &&& final(self)@ == next
                &&& match result {
                    Ok(token) => r is Ok && r->Ok_0 == token,
                    Err(f) => r is Err && r->Err_0@ == f,
                }
            }),
            final(self)@ == old(self)@.after(
                RuntimeCall::ClaimBound(
                    AttributionModel {
                        skill_id: skill_id@,
                        export_name: export_name@,
                        manifest: manifest@,
                    },
                ),
            ),
            old(self)@.well_formed() ==> final(self)@.well_formed(),
    {
        match self.bound_handle {
            None => Err(CapabilityError::InvalidInvocation),
            Some(handle) => {
                self.bound_handle = None;
                self.begin(handle, skill_id, export_name, manifest)
            },
        }
    }

    fn find_active(&self, token: u64) -> (r: Option<usize>)
        ensures
            match r {
                Some(i) => i < self.active@.len() && crate::store::position(
                    self@.active,
                    active_as(token),
                ) == Some(i as int),
                None => crate::store::position(self@.active, active_as(token)) is None,
            },
    {
        let ghost p = active_as(token);
        let mut i: usize = 0;
        while i < self.active.len()
            invariant
                i <= self.active@.len(),
                p == active_as(token),
                forall|j: int| 0 <= j < i ==> !p(#[trigger] self@.active[j]),
            decreases self.active@.len() - i,
        {
            assert(self@.active[i as int] == self.active@[i as int]@);
            if self.active[i].token == token {
                proof {
                    crate::store::lemma_position_found(self@.active, p, i as int);
                }
                return Some(i);
            }
            i = i + 1;
        }
        proof {
            crate::store::lemma_position_missing(self@.active, p);
        }
        None
    }

    /// Turns a request of an active invocation into the effect that its grant
    /// covers.
    pub fn dispatch(
        &mut self,
        token: u64,
        operation: HostCapability,
        encoded_arguments: &str,
    ) -> (r: Result<DispatchedEffect, CapabilityError>)
        ensures
            match old(self)@.dispatch(
                token,
                operation,
                decoded_text(operation, encoded_arguments@),
            ) {
                Ok((effect, next)) => r is Ok && r->Ok_0@ == effect && final(self)@ == next,
                Err(f) => r is Err && r->Err_0@ == f && final(self)@ == old(self)@,
            },
            final(self)@ == old(self)@.after(
                RuntimeCall::Dispatch {
                    token,
                    operation,
                    decoded_operation: decoded_text(operation, encoded_arguments@),
                },
            ),
            old(self)@.well_formed() ==> final(self)@.well_formed(),
    {
        let at = match self.find_active(token) {
            None => {
                return Err(CapabilityError::Revoked);
            },
            Some(at) => at,
        };
        assert(self@.active[at as int] == self.active@[at as int]@);
        let authorization = &self.active[at].authorization;
        let grant = match find_grant(&authorization.grants, operation) {
            None => {
                return Err(CapabilityError::Revoked);
            },
            Some(grant) => grant,
        };
        assert(authorization@.grants[grant as int] == authorization.grants@[grant as int]@);
        let decoded_operation = match decode_operation(operation, encoded_arguments) {
            Ok(decoded_operation) => decoded_operation,
            Err(e) => {
                return Err(e);
            },
        };
        if self.next_effect_ordinal >= self.max_effects_per_step {
            return Err(CapabilityError::DispatchDenied);
        }
        let effect_ordinal: u32 = self.next_effect_ordinal;
        let effect = DispatchedEffect {
            invocation_id: authorization.invocation_id.clone(),
            effect_ordinal,
            grant_id: authorization.grants[grant].grant_id.clone(),
            artifact_id: authorization.attribution.skill_id.clone(),
            export: authorization.attribution.export_name.clone(),
            operation: decoded_operation,
        };
        self.next_effect_ordinal = effect_ordinal + 1;
        Ok(effect)
    }

    /// Ends an active invocation.
    pub fn finish(&mut self, token: u64)
        ensures
            final(self)@ == old(self)@.after(RuntimeCall::Finish(token)),
            old(self)@.well_formed() ==> final(self)@.well_formed(),
    {
        let ghost before = self@;
        let ghost all = self@.active;
        let ghost p = active_other_than(token);
        let mut i: usize = 0;
        let ghost mut k: int = 0;
        proof {
            assert(all.take(0).filter(p) =~= Seq::empty());
            assert(all.take(0).filter(p) + all.skip(0) =~= all);
        }
        while i < self.active.len()
            invariant
                0 <= k <= all.len(),
                p == active_other_than(token),
                all == before.active,
                self@ == (RuntimeModel { active: all.take(k).filter(p) + all.skip(k), ..before }),
                i == all.take(k).filter(p).len(),
                self.active@.len() - i == all.len() - k,
            decreases self.active@.len() - i,
        {
            proof {
                let kept = all.take(k).filter(p);
                assert(self@.active[i as int] == self.active@[i as int]@);
                assert(self@.active[i as int] == all.skip(k)[0]);
                assert(all.take(k + 1).drop_last() =~= all.take(k));
                assert(all.take(k + 1).last() == all[k]);
                reveal_with_fuel(Seq::filter, 2);
                if p(all[k]) {
                    assert(all.take(k + 1).filter(p) == kept.push(all[k]));
                    assert(kept.push(all[k]) + all.skip(k + 1) =~= kept + all.skip(k));
                } else {
                    assert(all.take(k + 1).filter(p) == kept);
                }
            }
            if self.active[i].token == token {
                let ghost shown = self@.active;
                let removed = self.active.remove(i);
                proof {
                    assert(self@.active =~= shown.remove(i as int));
                    assert(shown.remove(i as int) =~= all.take(k + 1).filter(p) + all.skip(k + 1));
                }
            } else {
                i = i + 1;
            }
            proof {
                k = k + 1;
            }
        }
        proof {
            assert(all.take(k) =~= all);
            assert(all.filter(p) + all.skip(k) =~= all.filter(p));
            if before.well_formed() {
                lemma_filter_keeps_actives(before, p);
            }
        }
    }

    /// Drops an invocation, whether prepared or active, and its binding.
    pub fn cancel(&mut self, invocation_id: &str)
        ensures
            final(self)@ == old(self)@.after(RuntimeCall::Cancel(invocation_id@)),
            old(self)@.well_formed() ==> final(self)@.well_formed(),
    {
        let ghost before = self@;
        let bound = self.is_bound_to(invocation_id);
        if bound {
            self.bound_handle = None;
        }
        let ghost bound_handle = self@.bound_handle;
        let ghost all = before.prepared;
        let ghost p = prepared_for_other(invocation_id@);
        let mut i: usize = 0;
        let ghost mut k: int = 0;
        proof {
            assert(all.take(0).filter(p) =~= Seq::empty());
            assert(all.take(0).filter(p) + all.skip(0) =~= all);
        }
        while i < self.prepared.len()
            invariant
                0 <= k <= all.len(),
                p == prepared_for_other(invocation_id@),
                all == before.prepared,
                self@ == (RuntimeModel {
                    bound_handle,
                    prepared: all.take(k).filter(p) + all.skip(k),
                    ..before
                }),
                i == all.take(k).filter(p).len(),
                self.prepared@.len() - i == all.len() - k,
            decreases self.prepared@.len() - i,
        {
            proof {
                let kept = all.take(k).filter(p);
                assert(self@.prepared[i as int] == self.prepared@[i as int]@);
                assert(self@.prepared[i as int] == all.skip(k)[0]);
                assert(all.take(k + 1).drop_last() =~= all.take(k));
                assert(all.take(k + 1).last() == all[k]);
                reveal_with_fuel(Seq::filter, 2);
                if p(all[k]) {
                    assert(all.take(k + 1).filter(p) == kept.push(all[k]));
                    assert(kept.push(all[k]) + all.skip(k + 1) =~= kept + all.skip(k));
                } else {
                    assert(all.take(k + 1).filter(p) == kept);
                }
            }
            if text::same(&self.prepared[i].authorization.invocation_id, invocation_id) {
                let ghost shown = self@.prepared;
                let removed = self.prepared.remove(i);
                proof {
                    assert(self@.prepared =~= shown.remove(i as int));
                    assert(shown.remove(i as int) =~= all.take(k + 1).filter(p) + all.skip(k + 1));
                }
            } else {
                i = i + 1;
            }
            proof {
                k = k + 1;
            }
        }
        proof {
            assert(all.take(k) =~= all);
            assert(all.filter(p) + all.skip(k) =~= all.filter(p));
        }
        self.drop_actives_of(invocation_id);
        proof {
            if before.well_formed() {
                lemma_filter_keeps_prepared(before, p);
                lemma_filter_keeps_actives(before, active_for_other(invocation_id@));
            }
        }
    }

    fn is_bound_to(&self, invocation_id: &str) -> (r: bool)
        ensures
            r == match self@.bound_handle {
                Some(handle) => exists|i: int|
                    0 <= i < self@.prepared.len() && (#[trigger] self@.prepared[i]).handle == handle
                        && self@.prepared[i].authorization.invocation_id == invocation_id@,
                None => false,
            },
    {
        let handle: u64 = match self.bound_handle {
            Some(handle) => handle,
            None => {
                return false;
            },
        };
        let mut i: usize = 0;
        while i < self.prepared.len()
            invariant
                i <= self.prepared@.len(),
                self@.bound_handle == Some(handle),
                forall|j: int|
                    0 <= j < i ==> !((#[trigger] self@.prepared[j]).handle == handle
                        && self@.prepared[j].authorization.invocation_id == invocation_id@),
            decreases self.prepared@.len() - i,
        {
            assert(self@.prepared[i as int] == self.prepared@[i as int]@);
            if self.prepared[i].handle == handle && text::same(
                &self.prepared[i].authorization.invocation_id,
                invocation_id,
            ) {
                return true;
            }
            i = i + 1;
        }
        false
    }

    fn drop_actives_of(&mut self, invocation_id: &str)
        ensures
            final(self)@ == (RuntimeModel {
                active: old(self)@.active.filter(active_for_other(invocation_id@)),
                ..old(self)@
            }),
    {
        let ghost before = self@;
        let ghost all = self@.active;
        let ghost p = active_for_other(invocation_id@);
        let mut i: usize = 0;
        let ghost mut k: int = 0;
        proof {
            assert(all.take(0).filter(p) =~= Seq::empty());
            assert(all.take(0).filter(p) + all.skip(0) =~= all);
        }
        while i < self.active.len()
            invariant
                0 <= k <= all.len(),
                p == active_for_other(invocation_id@),
                all == before.active,
                self@ == (RuntimeModel { active: all.take(k).filter(p) + all.skip(k), ..before }),
                i == all.take(k).filter(p).len(),
                self.active@.len() - i == all.len() - k,
            decreases self.active@.len() - i,
        {
            proof {
                let kept = all.take(k).filter(p);
                assert(self@.active[i as int] == self.active@[i as int]@);
                assert(self@.active[i as int] == all.skip(k)[0]);
                assert(all.take(k + 1).drop_last() =~= all.take(k));
                assert(all.take(k + 1).last() == all[k]);
                reveal_with_fuel(Seq::filter, 2);
                if p(all[k]) {
                    assert(all.take(k + 1).filter(p) == kept.push(all[k]));
                    assert(kept.push(all[k]) + all.skip(k + 1) =~= kept + all.skip(k));
                } else {
                    assert(all.take(k + 1).filter(p) == kept);
                }
            }
            if text::same(&self.active[i].authorization.invocation_id, invocation_id) {
                let ghost shown = self@.active;
                let removed = self.active.remove(i);
                proof {
                    assert(self@.active =~= shown.remove(i as int));
                    assert(shown.remove(i as int) =~= all.take(k + 1).filter(p) + all.skip(k + 1));
                }
            } else {
                i = i + 1;
            }
            proof {
                k = k + 1;
            }
        }
        proof {
            assert(all.take(k) =~= all);
            assert(all.filter(p) + all.skip(k) =~= all.filter(p));
        }
    }

    /// Forgets every invocation, grant and effect of the step. The counters go on,
    /// so no handle or token is issued twice.
    pub fn recycle(&mut self)
        ensures
            final(self)@ == old(self)@.after(RuntimeCall::Recycle),
            final(self)@.well_formed(),
    {
        self.prepared.clear();
        self.active.clear();
        self.bound_handle = None;
        self.next_effect_ordinal = 0;
        self.seen_grants.clear();
        proof {
            assert(self@.prepared =~= Seq::empty());
            assert(self@.active =~= Seq::empty());
            assert(self@.seen_grants =~= Seq::empty());
        }
    }

    /// How many invocations are active.
    pub fn active_count(&self) -> (r: usize)
        ensures
            r == self@.active.len(),
    {
        self.active.len()
    }
}

/// The items that a filter keeps stand in the sequence in the same order.
proof fn lemma_filter_positions<A>(s: Seq<A>, p: spec_fn(A) -> bool) -> (at: Seq<int>)
    ensures
        at.len() == s.filter(p).len(),
        forall|i: int|
            0 <= i < at.len() ==> 0 <= #[trigger] at[i] < s.len() && s.filter(p)[i] == s[at[i]],
        forall|i: int, j: int| 0 <= i < j < at.len() ==> #[trigger] at[i] < #[trigger] at[j],
    decreases s.len(),
{
    reveal_with_fuel(Seq::filter, 2);
    if s.len() == 0 {
        Seq::empty()
    } else {
        let before = lemma_filter_positions(s.drop_last(), p);
        if p(s.last()) {
            before.push(s.len() - 1)
        } else {
            before
        }
    }
}

proof fn lemma_filter_keeps_actives(m: RuntimeModel, p: spec_fn(ActiveModel) -> bool)
    requires
        m.well_formed(),
    ensures
        (RuntimeModel { active: m.active.filter(p), ..m }).well_formed(),
{
    let at = lemma_filter_positions(m.active, p);
    let kept = m.active.filter(p);
    assert forall|i: int, j: int| 0 <= i < j < kept.len() implies (#[trigger] kept[i]).token != (
    #[trigger] kept[j]).token by {
        assert(at[i] < at[j]);
        assert(m.active[at[i]].token != m.active[at[j]].token);
    }
    assert forall|i: int| 0 <= i < kept.len() implies (#[trigger] kept[i]).token
        <= m.next_token by {
        assert(m.active[at[i]].token <= m.next_token);
    }
}

proof fn lemma_filter_keeps_prepared(m: RuntimeModel, p: spec_fn(PreparedModel) -> bool)
    requires
        m.well_formed(),
    ensures
        (RuntimeModel { prepared: m.prepared.filter(p), ..m }).well_formed(),
{
    let at = lemma_filter_positions(m.prepared, p);
    let kept = m.prepared.filter(p);
    assert forall|i: int, j: int| 0 <= i < j < kept.len() implies (#[trigger] kept[i]).handle != (
    #[trigger] kept[j]).handle by {
        assert(at[i] < at[j]);
        assert(m.prepared[at[i]].handle != m.prepared[at[j]].handle);
    }
    assert forall|i: int| 0 <= i < kept.len() implies (#[trigger] kept[i]).handle
        <= m.next_prepared_handle by {
        assert(m.prepared[at[i]].handle <= m.next_prepared_handle);
    }
}

/// A grant is handed out at most once between two recyclings: once an authorization
/// is prepared, no authorization that shares one of its grants can be prepared.
pub proof fn law_grants_are_single_use(
    m: RuntimeModel,
    a: AuthorizationModel,
    b: AuthorizationModel,
    i: int,
    j: int,
)
    requires
        m.prepare(a) is Ok,
        0 <= i < a.grants.len(),
        0 <= j < b.grants.len(),
        a.grants[i].grant_id == b.grants[j].grant_id,
    ensures
        m.prepare(a)->Ok_0.1.prepare(b) is Err,
{
    let next = m.prepare(a)->Ok_0.1;
    let ids = grant_ids(a.grants);
    assert(ids[i] == a.grants[i].grant_id);
    assert(next.seen_grants[m.seen_grants.len() + i] == a.grants[i].grant_id);
    assert(next.seen_grants.contains(b.grants[j].grant_id));
}

/// A prepared handle is begun at most once: after a successful begin the handle is
/// unknown.
pub proof fn law_handles_are_one_shot(
    m: RuntimeModel,
    handle: u64,
    attribution: AttributionModel,
    again: AttributionModel,
)
    requires
        m.well_formed(),
        m.begin(handle, attribution).0 is Ok,
    ensures
        m.begin(handle, attribution).1.begin(handle, again).0 is Err,
{
    let p = prepared_as(handle);
    let at = crate::store::position(m.prepared, p)->0;
    assert(crate::store::first_match(m.prepared, p, at));
    let next = m.begin(handle, attribution).1;
    assert forall|i: int| 0 <= i < next.prepared.len() implies !p(#[trigger] next.prepared[i]) by {
        let was = if i < at {
            i
        } else {
            i + 1
        };
        assert(next.prepared[i] == m.prepared[was]);
        if was < at {
            assert(m.prepared[was].handle != m.prepared[at].handle);
        } else {
            assert(m.prepared[at].handle != m.prepared[was].handle);
        }
    }
    crate::store::lemma_position_missing(next.prepared, p);
}

/// A binding is claimed at most once. A claim that succeeds spends the handle with it;
/// one whose attribution does not fit leaves the handle prepared.
pub proof fn law_bindings_are_one_shot(
    m: RuntimeModel,
    attribution: AttributionModel,
    again: AttributionModel,
)
    requires
        m.well_formed(),
    ensures
        ({
            let (result, next) = m.claim_bound(attribution);
            &&& next.bound_handle is None
            &&& next.claim_bound(again).0 == Err::<u64, _>(CapabilityFault::InvalidInvocation)
            &&& match m.bound_handle {
                None => result is Err,
                Some(handle) => {
                    let at = crate::store::position(m.prepared, prepared_as(handle));
                    &&& result is Ok ==> next.begin(handle, again).0 is Err
                    &&& at is Some && m.prepared[at->0].authorization.attribution != attribution
                        ==> result is Err && next.prepared == m.prepared
                },
            }
        }),
{
    if let Some(handle) = m.bound_handle {
        let unbound = RuntimeModel { bound_handle: None, ..m };
        assert(unbound.well_formed());
        if unbound.begin(handle, attribution).0 is Ok {
            law_handles_are_one_shot(unbound, handle, attribution, again);
        }
    }
}

/// An effect is dispatched only for an active invocation that holds a grant for the
/// operation, and its ordinal is below the limit of the step.
pub proof fn law_effects_need_a_grant(
    m: RuntimeModel,
    token: u64,
    operation: HostCapability,
    decoded_operation: Option<OperationModel>,
)
    requires
        m.dispatch(token, operation, decoded_operation) is Ok,
    ensures
        ({
            let effect = m.dispatch(token, operation, decoded_operation)->Ok_0.0;
            &&& exists|i: int|
                0 <= i < m.active.len() && (#[trigger] m.active[i]).token == token && grant_for(
                    m.active[i].authorization.grants,
                    operation,
                ) == Some(effect.grant_id) && m.active[i].authorization.invocation_id
                    == effect.invocation_id
            &&& effect.effect_ordinal < m.max_effects_per_step
        }),
{
    let p = active_as(token);
    let at = crate::store::position(m.active, p)->0;
    assert(crate::store::first_match(m.active, p, at));
    assert(m.active[at].token == token);
}

pub open spec fn attribution_views(s: Seq<SkillExecutionAttribution>) -> Seq<AttributionModel> {
    s.map_values(|a: SkillExecutionAttribution| a@)
}

pub open spec fn denial_views(s: Seq<CapabilityDenied>) -> Seq<DenialModel> {
    s.map_values(|d: CapabilityDenied| d@)
}

/// Execution context of one script thread. Nested scopes intersect manifests.
#[derive(Debug, Clone)]
pub struct CapabilityContext {
    pub stack: Vec<SkillExecutionAttribution>,
    pub denials: Vec<CapabilityDenied>,
}

/// The contents of a [`CapabilityContext`].
#[verifier::ext_equal]
pub struct ContextModel {
    pub stack: Seq<AttributionModel>,
    pub denials: Seq<DenialModel>,
}

impl View for CapabilityContext {
    type V = ContextModel;

    open spec fn view(&self) -> ContextModel {
        ContextModel {
            stack: attribution_views(self.stack@),
            denials: denial_views(self.denials@),
        }
    }
}

impl Default for CapabilityContext {
    fn default() -> (r: CapabilityContext)
        ensures
            r@ == (ContextModel { stack: Seq::empty(), denials: Seq::empty() }),
    {
        let r = CapabilityContext { stack: Vec::new(), denials: Vec::new() };
        proof {
            assert(r@.stack =~= Seq::empty());
            assert(r@.denials =~= Seq::empty());
        }
        r
    }
}

/// Stands for one entered scope; hand it to [`CapabilityContext::leave`] when the
/// scope ends.
#[derive(Debug)]
pub struct CapabilityGuard {
    /// How many scopes were open once this one was entered.
    pub depth: usize,
}

/// The innermost scope that does not allow an operation, among the first `n`.
pub open spec fn innermost_denying(
    stack: Seq<AttributionModel>,
    operation: HostCapability,
    n: int,
) -> Option<int>
    decreases n,
{
    if n <= 0 {
        None
    } else if !stack[n - 1].manifest.allows(operation) {
        Some(n - 1)
    } else {
        innermost_denying(stack, operation, n - 1)
    }
}

/// Who is refused an operation, and why. Code outside a skill has no skill
/// constraint and is governed by the session alone.
pub open spec fn denial(
    stack: Seq<AttributionModel>,
    operation: HostCapability,
    session_allowed: bool,
) -> Option<DenialModel> {
    if stack.len() == 0 {
        if session_allowed {
            None
        } else {
            Some(
                DenialModel {
                    skill_id: Seq::empty(),
                    export_name: Seq::empty(),
                    operation,
                    reason: CapabilityDenialReason::SessionDenied,
                },
            )
        }
    } else if !session_allowed {
        Some(
            DenialModel {
                skill_id: stack.last().skill_id,
                export_name: stack.last().export_name,
                operation,
                reason: CapabilityDenialReason::SessionDenied,
            },
        )
    } else {
        match innermost_denying(stack, operation, stack.len() as int) {
            None => None,
            Some(i) => Some(
                DenialModel {
                    skill_id: stack[i].skill_id,
                    export_name: stack[i].export_name,
                    operation,
                    reason: CapabilityDenialReason::Undeclared,
                },
            ),
        }
    }
}

/// A call that changes a context.
pub enum ContextCall {
    Push(AttributionModel),
    Pop,
    Authorize { operation: HostCapability, session_allowed: bool },
    TakeDenials,
    Clear,
}

impl ContextModel {
    /// The refusal that a call gives rise to inside a skill.
    pub open spec fn refusal(self, call: ContextCall) -> Option<DenialModel> {
        match call {
            ContextCall::Authorize { operation, session_allowed } => if self.stack.len() > 0 {
                denial(self.stack, operation, session_allowed)
            } else {
                None
            },
            _ => None,
        }
    }

    /// The context after a call.
    pub open spec fn after(self, call: ContextCall) -> ContextModel {
        match call {
            ContextCall::Push(attribution) => if attribution_fault(attribution) is None {
                ContextModel { stack: self.stack.push(attribution), ..self }
            } else {
                self
            },
            ContextCall::Pop => if self.stack.len() > 0 {
                ContextModel { stack: self.stack.drop_last(), ..self }
            } else {
                self
            },
            ContextCall::Authorize { .. } => match self.refusal(call) {
                Some(d) => if self.denials.len() < MAX_DENIALS {
                    ContextModel { denials: self.denials.push(d), ..self }
                } else {
                    self
                },
                None => self,
            },
            ContextCall::TakeDenials => ContextModel { denials: Seq::empty(), ..self },
            ContextCall::Clear => ContextModel { stack: Seq::empty(), ..self },
        }
    }
}

/// A new context after a history of calls.
pub open spec fn context_run(calls: Seq<ContextCall>) -> ContextModel
    decreases calls.len(),
{
    if calls.len() == 0 {
        ContextModel { stack: Seq::empty(), denials: Seq::empty() }
    } else {
        context_run(calls.drop_last()).after(calls.last())
    }
}

/// The refusals inside skills since they were last handed out, in order.
pub open spec fn refusals(calls: Seq<ContextCall>) -> Seq<DenialModel>
    decreases calls.len(),
{
    if calls.len() == 0 {
        Seq::empty()
    } else {
        let before = refusals(calls.drop_last());
        match (calls.last(), context_run(calls.drop_last()).refusal(calls.last())) {
            (ContextCall::TakeDenials, _) => Seq::empty(),
            (_, Some(d)) => before.push(d),
            (_, None) => before,
        }
    }
}

/// What is kept to be handed out are the refusals inside skills since they were last
/// handed out, in order, the first of them where there are too many.
pub proof fn law_the_first_refusals_are_kept(calls: Seq<ContextCall>)
    ensures
        context_run(calls).denials == if refusals(calls).len() <= MAX_DENIALS {
            refusals(calls)
        } else {
            refusals(calls).take(MAX_DENIALS as int)
        },
    decreases calls.len(),
{
    if calls.len() > 0 {
        let init = calls.drop_last();
        law_the_first_refusals_are_kept(init);
        let before = refusals(init);
        let after = refusals(calls);
        if before.len() <= MAX_DENIALS {
            if after.len() > MAX_DENIALS {
                assert(after.take(MAX_DENIALS as int) =~= before);
            }
        } else if after.len() > before.len() {
            assert(after.take(MAX_DENIALS as int) =~= before.take(MAX_DENIALS as int));
        }
    }
}

impl CapabilityContext {
    /// Enters the scope of a skill.
    pub fn enter(&mut self, attribution: SkillExecutionAttribution) -> (r: Result<
        CapabilityGuard,
        CapabilityError,
    >)
        ensures
            final(self)@ == old(self)@.after(ContextCall::Push(attribution@)),
            match attribution_fault(attribution@) {
                None => r is Ok && r->Ok_0.depth == old(self)@.stack.len() + 1,
                Some(f) => r is Err && r->Err_0@ == f,
            },
    {
        match self.push(attribution) {
            Ok(()) => {
                assert(self@.stack.len() == self.stack@.len());
                Ok(CapabilityGuard { depth: self.stack.len() })
            },
            Err(e) => Err(e),
        }
    }

    /// Leaves the innermost scope.
    pub fn leave(&mut self, guard: CapabilityGuard)
        ensures
            final(self)@ == old(self)@.after(ContextCall::Pop),
    {
        match self.pop() {
            Ok(()) => {},
            Err(_) => {},
        }
    }

    pub fn push(&mut self, attribution: SkillExecutionAttribution) -> (r: Result<
        (),
        CapabilityError,
    >)
        ensures
            final(self)@ == old(self)@.after(ContextCall::Push(attribution@)),
            match attribution_fault(attribution@) {
                None => r is Ok,
                Some(f) => r is Err && r->Err_0@ == f,
            },
    {
        match validate_attribution(&attribution) {
            Ok(()) => {},
            Err(e) => {
                return Err(e);
            },
        }
        let ghost before = self@;
        let ghost added = attribution@;
        self.stack.push(attribution);
        assert(self@.stack =~= before.stack.push(added));
        Ok(())
    }

    pub fn pop(&mut self) -> (r: Result<(), CapabilityError>)
        ensures
            final(self)@ == old(self)@.after(ContextCall::Pop),
            match r {
                Ok(()) => old(self)@.stack.len() > 0,
                Err(e) => old(self)@.stack.len() == 0 && e@ == CapabilityFault::InvalidAttribution,
            },
    {
        let ghost before = self@;
        match self.stack.pop() {
            Some(_) => {
                assert(self@.stack =~= before.stack.drop_last());
                Ok(())
            },
            None => {
                assert(before.stack.len() == 0);
                assert(self@.stack =~= before.stack);
                Err(CapabilityError::InvalidAttribution)
            },
        }
    }

    /// Decides whether an operation may be carried out now. Every nested scope must
    /// declare it: a callee cannot borrow authority from a caller or the session.
    /// Refusals inside a skill are kept, the first ones of a step.
    pub fn authorize(&mut self, operation: HostCapability, session_allowed: bool) -> (r: Result<
        (),
        CapabilityError,
    >)
        ensures
            final(self)@ == old(self)@.after(ContextCall::Authorize { operation, session_allowed }),
            match denial(old(self)@.stack, operation, session_allowed) {
                None => r is Ok,
                Some(d) => r is Err && r->Err_0@ == CapabilityFault::Denied(d),
            },
    {
        let n = self.stack.len();
        if n == 0 {
            if session_allowed {
                return Ok(());
            }
            let denied = CapabilityDenied {
                skill_id: String::new(),
                export_name: String::new(),
                operation,
                reason: CapabilityDenialReason::SessionDenied,
            };
            return Err(CapabilityError::Denied(denied));
        }
        assert(self@.stack[n - 1] == self.stack@[n - 1]@);
        if !session_allowed {
            let denied = CapabilityDenied {
                skill_id: self.stack[n - 1].skill_id.clone(),
                export_name: self.stack[n - 1].export_name.clone(),
                operation,
                reason: CapabilityDenialReason::SessionDenied,
            };
            return self.deny(denied);
        }
        let mut i: usize = n;
        while i > 0
            invariant
                i <= n,
                n == self.stack@.len(),
                n > 0,
                session_allowed,
                *self == *old(self),
                innermost_denying(self@.stack, operation, n as int) == innermost_denying(
                    self@.stack,
                    operation,
                    i as int,
                ),
            decreases i,
        {
            i = i - 1;
            assert(self@.stack[i as int] == self.stack@[i as int]@);
            if !self.stack[i].manifest.allows(operation) {
                let denied = CapabilityDenied {
                    skill_id: self.stack[i].skill_id.clone(),
                    export_name: self.stack[i].export_name.clone(),
                    operation,
                    reason: CapabilityDenialReason::Undeclared,
                };
                return self.deny(denied);
            }
        }
        Ok(())
    }

    fn deny(&mut self, denial: CapabilityDenied) -> (r: Result<(), CapabilityError>)
        ensures
            r is Err,
            r->Err_0@ == CapabilityFault::Denied(denial@),
            final(self)@ == if old(self)@.denials.len() < MAX_DENIALS {
                ContextModel { denials: old(self)@.denials.push(denial@), ..old(self)@ }
            } else {
                old(self)@
            },
    {
        let ghost before = self@;
        if self.denials.len() < MAX_DENIALS {
            let kept = CapabilityDenied {
                skill_id: denial.skill_id.clone(),
                export_name: denial.export_name.clone(),
                operation: denial.operation,
                reason: denial.reason,
            };
            self.denials.push(kept);
            assert(self@.denials =~= before.denials.push(denial@));
        }
        Err(CapabilityError::Denied(denial))
    }

    /// Hands the kept refusals out and forgets them.
    pub fn take_denials(&mut self) -> (r: Vec<CapabilityDenied>)
        ensures
            denial_views(r@) == old(self)@.denials,
            final(self)@ == old(self)@.after(ContextCall::TakeDenials),
    {
        let mut taken: Vec<CapabilityDenied> = Vec::new();
        core::mem::swap(&mut taken, &mut self.denials);
        assert(self@.denials =~= Seq::empty());
        taken
    }

    /// The innermost scope.
    pub fn current(&self) -> (r: Option<SkillExecutionAttribution>)
        ensures
            match r {
                Some(a) => self@.stack.len() > 0 && a@ == self@.stack.last(),
                None => self@.stack.len() == 0,
            },
    {
        let n = self.stack.len();
        if n == 0 {
            return None;
        }
        assert(self@.stack[n - 1] == self.stack@[n - 1]@);
        Some(self.stack[n - 1].copy())
    }

    /// Leaves every scope.
    pub fn clear(&mut self)
        ensures
            final(self)@ == old(self)@.after(ContextCall::Clear),
    {
        self.stack.clear();
        assert(self@.stack =~= Seq::empty());
    }
}

proof fn lemma_no_denying_scope(
    stack: Seq<AttributionModel>,
    operation: HostCapability,
    n: int,
)
    requires
        0 <= n <= stack.len(),
    ensures
        innermost_denying(stack, operation, n) is None <==> forall|i: int|
            0 <= i < n ==> (#[trigger] stack[i]).manifest.allows(operation),
    decreases n,
{
    if n > 0 {
        lemma_no_denying_scope(stack, operation, n - 1);
        let scope = stack[n - 1];
    }
}

/// An operation is allowed exactly where the session allows it and every open scope
/// declares it: nested scopes intersect.
pub proof fn law_nested_scopes_intersect(
    stack: Seq<AttributionModel>,
    operation: HostCapability,
    session_allowed: bool,
)
    ensures
        denial(stack, operation, session_allowed) is None <==> session_allowed && forall|i: int|
            0 <= i < stack.len() ==> (#[trigger] stack[i]).manifest.allows(operation),
{
    lemma_no_denying_scope(stack, operation, stack.len() as int);
}

/// Entering one more scope never allows what was refused before.
pub proof fn law_entering_never_widens(
    stack: Seq<AttributionModel>,
    scope: AttributionModel,
    operation: HostCapability,
    session_allowed: bool,
)
    requires
        denial(stack, operation, session_allowed) is Some,
    ensures
        denial(stack.push(scope), operation, session_allowed) is Some,
{
    law_nested_scopes_intersect(stack, operation, session_allowed);
    law_nested_scopes_intersect(stack.push(scope), operation, session_allowed);
    if denial(stack.push(scope), operation, session_allowed) is None {
        assert forall|i: int| 0 <= i < stack.len() implies (
        #[trigger] stack[i]).manifest.allows(operation) by {
            assert(stack.push(scope)[i] == stack[i]);
        }
    }
}

/// An effect is carried out for exactly the invocation that asks for it: its token is
/// active, one of its own grants is for the operation, the arguments were understood and
/// the step has effects left. The effect names that invocation, its skill and its export,
/// the grant, its place in the step and just the operation that was asked for; nothing
/// but the place of the next effect changes.
pub proof fn law_effects_are_those_of_their_invocation(
    m: RuntimeModel,
    i: int,
    operation: HostCapability,
    wanted: Option<OperationModel>,
)
    requires
        m.well_formed(),
        0 <= i < m.active.len(),
    ensures
        ({
            let token = m.active[i].token;
            let a = m.active[i].authorization;
            let granted = exists|g: int|
                0 <= g < a.grants.len() && (#[trigger] a.grants[g]).capability == operation;
            match m.dispatch(token, operation, wanted) {
                Ok((effect, next)) => {
                    &&& granted
                    &&& m.next_effect_ordinal < m.max_effects_per_step
                    &&& wanted == Some(effect.operation)
                    &&& effect.invocation_id == a.invocation_id
                    &&& effect.artifact_id == a.attribution.skill_id
                    &&& effect.export == a.attribution.export_name
                    &&& effect.effect_ordinal == m.next_effect_ordinal
                    &&& exists|g: int|
                        0 <= g < a.grants.len() && (#[trigger] a.grants[g]).capability == operation
                            && a.grants[g].grant_id == effect.grant_id
                    &&& next.next_effect_ordinal == m.next_effect_ordinal + 1
                    &&& next == (RuntimeModel {
                        next_effect_ordinal: next.next_effect_ordinal,
                        ..m
                    })
                },
                Err(f) => if !granted {
                    f is Revoked
                } else if wanted is None {
                    f is InvalidArguments
                } else {
                    f is DispatchDenied && m.next_effect_ordinal >= m.max_effects_per_step
                },
            }
        }),
{
    let token = m.active[i].token;
    let p = active_as(token);
    crate::store::lemma_some_match_is_found(m.active, p, i);
    let at = crate::store::position(m.active, p)->0;
    assert(crate::store::first_match(m.active, p, at));
    if at < i {
        assert(m.active[at].token != m.active[i].token);
    } else if i < at {
        assert(m.active[i].token != m.active[at].token);
    }
    let a = m.active[i].authorization;
    let q = grant_covers(operation);
    if exists|g: int| 0 <= g < a.grants.len() && (#[trigger] a.grants[g]).capability == operation {
        let g = choose|g: int|
            0 <= g < a.grants.len() && (#[trigger] a.grants[g]).capability == operation;
        crate::store::lemma_some_match_is_found(a.grants, q, g);
    }
    if let Some(g) = crate::store::position(a.grants, q) {
        assert(crate::store::first_match(a.grants, q, g));
        assert(a.grants[g].capability == operation);
    }
}

/// A token that is not active has no authority: whatever it asks for is refused as
/// revoked. Finishing an invocation, cancelling it and recycling the runtime take its
/// authority away, and no other's, but for recycling, which takes all.
pub proof fn law_ended_invocations_have_no_authority(
    m: RuntimeModel,
    token: u64,
    other: u64,
    operation: HostCapability,
    wanted: Option<OperationModel>,
)
    requires
        m.well_formed(),
    ensures
        (forall|i: int| 0 <= i < m.active.len() ==> (#[trigger] m.active[i]).token != token)
            ==> m.dispatch(token, operation, wanted) is Err && m.dispatch(
            token,
            operation,
            wanted,
        )->Err_0 is Revoked,
        m.after(RuntimeCall::Finish(token)).dispatch(token, operation, wanted) is Err,
        m.after(RuntimeCall::Recycle).dispatch(token, operation, wanted) is Err,
        m.after(RuntimeCall::Recycle).prepared.len() == 0,
        m.after(RuntimeCall::Recycle).bound_handle is None,
        m.after(RuntimeCall::Recycle).next_effect_ordinal == 0,
        other != token ==> forall|i: int|
            0 <= i < m.active.len() && (#[trigger] m.active[i]).token == other ==> m.after(
                RuntimeCall::Finish(token),
            ).active.contains(m.active[i]),
{
    lemma_not_active(m, token, operation, wanted);
    let finished = m.after(RuntimeCall::Finish(token));
    let keep = active_other_than(token);
    assert forall|i: int| 0 <= i < finished.active.len() implies (
    #[trigger] finished.active[i]).token != token by {
        m.active.lemma_filter_pred(keep, i);
    }
    lemma_not_active(finished, token, operation, wanted);
    lemma_not_active(m.after(RuntimeCall::Recycle), token, operation, wanted);
    if other != token {
        assert forall|i: int|
            0 <= i < m.active.len() && (
            #[trigger] m.active[i]).token == other implies finished.active.contains(
            m.active[i],
        ) by {
            m.active.lemma_filter_contains(keep, i);
        }
    }
}

proof fn lemma_not_active(
    m: RuntimeModel,
    token: u64,
    operation: HostCapability,
    wanted: Option<OperationModel>,
)
    ensures
        (forall|i: int| 0 <= i < m.active.len() ==> (#[trigger] m.active[i]).token != token)
            ==> m.dispatch(token, operation, wanted) == Err::<(EffectModel, RuntimeModel), _>(
            CapabilityFault::Revoked,
        ),
{
    if forall|i: int| 0 <= i < m.active.len() ==> (#[trigger] m.active[i]).token != token {
        crate::store::lemma_position_missing(m.active, active_as(token));
    }
}

/// A cancelled invocation is gone, prepared or active, and its binding with it; every
/// other invocation stays.
pub proof fn law_cancelling_ends_one_invocation(m: RuntimeModel, invocation_id: Seq<char>)
    ensures
        ({
            let next = m.after(RuntimeCall::Cancel(invocation_id));
            &&& forall|i: int|
                0 <= i < next.prepared.len() ==> (
                #[trigger] next.prepared[i]).authorization.invocation_id != invocation_id
            &&& forall|i: int|
                0 <= i < next.active.len() ==> (
                #[trigger] next.active[i]).authorization.invocation_id != invocation_id
            &&& forall|i: int|
                0 <= i < m.prepared.len() && (
                #[trigger] m.prepared[i]).authorization.invocation_id != invocation_id
                    ==> next.prepared.contains(m.prepared[i])
            &&& forall|i: int|
                0 <= i < m.active.len() && (#[trigger] m.active[i]).authorization.invocation_id
                    != invocation_id ==> next.active.contains(m.active[i])
            &&& next.seen_grants == m.seen_grants
            &&& next.next_effect_ordinal == m.next_effect_ordinal
            &&& forall|i: int|
                0 <= i < m.prepared.len() && (
                #[trigger] m.prepared[i]).authorization.invocation_id == invocation_id
                    ==> next.bound_handle != Some(m.prepared[i].handle)
        }),
{
    let next = m.after(RuntimeCall::Cancel(invocation_id));
    let p = prepared_for_other(invocation_id);
    let q = active_for_other(invocation_id);
    assert forall|i: int| 0 <= i < next.prepared.len() implies (
    #[trigger] next.prepared[i]).authorization.invocation_id != invocation_id by {
        m.prepared.lemma_filter_pred(p, i);
    }
    assert forall|i: int| 0 <= i < next.active.len() implies (
    #[trigger] next.active[i]).authorization.invocation_id != invocation_id by {
        m.active.lemma_filter_pred(q, i);
    }
    assert forall|i: int|
        0 <= i < m.prepared.len() && (#[trigger] m.prepared[i]).authorization.invocation_id
            != invocation_id implies next.prepared.contains(m.prepared[i]) by {
        m.prepared.lemma_filter_contains(p, i);
    }
    assert forall|i: int|
        0 <= i < m.active.len() && (#[trigger] m.active[i]).authorization.invocation_id
            != invocation_id implies next.active.contains(m.active[i]) by {
        m.active.lemma_filter_contains(q, i);
    }
}

/// A prepared invocation begins exactly under the attribution that it was authorized
/// for. It then leaves the prepared ones and is active under a new token, with the
/// authorization it had.
pub proof fn law_invocations_begin_as_they_were_authorized(
    m: RuntimeModel,
    i: int,
    attribution: AttributionModel,
)
    requires
        m.well_formed(),
        0 <= i < m.prepared.len(),
        m.next_token < u64::MAX,
    ensures
        ({
            let (result, next) = m.begin(m.prepared[i].handle, attribution);
            if m.prepared[i].authorization.attribution == attribution {
                &&& result matches Ok(token) && forall|k: int|
                    0 <= k < m.active.len() ==> (#[trigger] m.active[k]).token != token
                &&& next.active == m.active.push(
                    ActiveModel { token: result->Ok_0, authorization: m.prepared[i].authorization },
                )
                &&& next.prepared == m.prepared.remove(i)
                &&& next.bound_handle == m.bound_handle
                &&& next.next_effect_ordinal == m.next_effect_ordinal
            } else {
                result is Err && next == m
            }
        }),
{
    let handle = m.prepared[i].handle;
    let p = prepared_as(handle);
    crate::store::lemma_some_match_is_found(m.prepared, p, i);
    let at = crate::store::position(m.prepared, p)->0;
    assert(crate::store::first_match(m.prepared, p, at));
    if at < i {
        assert(m.prepared[at].handle != m.prepared[i].handle);
    } else if i < at {
        assert(m.prepared[i].handle != m.prepared[at].handle);
    }
}

/// An authorization has one grant for each operation that its manifest declares and no
/// others, and no two grants share an id. It names a full lowercase id and an export.
pub proof fn law_grants_are_just_those_declared(
    m: AttributionModel,
    grants: Seq<GrantModel>,
    operation: HostCapability,
)
    requires
        attribution_fault(m) is None,
        grants_match(m.manifest, grants),
        m.manifest.allowed_hosts.no_duplicates(),
    ensures
        digest::is_full_lower_hex(m.skill_id),
        !text::is_blank(m.export_name),
        m.manifest.fault() is None,
        m.manifest.allowed_hosts.contains(operation) <==> exists|i: int|
            0 <= i < grants.len() && (#[trigger] grants[i]).capability == operation,
        forall|i: int, j: int|
            0 <= i < j < grants.len() ==> (#[trigger] grants[i]).grant_id != (
            #[trigger] grants[j]).grant_id,
{
    let hosts = m.manifest.allowed_hosts;
    let held = grants.map_values(|g: GrantModel| g.capability);
    assert(held.no_duplicates());
    assert forall|h: HostCapability| hosts.contains(h) implies #[trigger] held.contains(h) by {
        let k = hosts.index_of(h);
        assert(grant_for(grants, hosts[k]) is Some);
        let g = crate::store::position(grants, grant_covers(h))->0;
        assert(crate::store::first_match(grants, grant_covers(h), g));
        assert(held[g] == h);
    }
    hosts.unique_seq_to_set();
    held.unique_seq_to_set();
    vstd::set_lib::lemma_subset_equality(hosts.to_set(), held.to_set());
    assert(hosts.contains(operation) <==> hosts.to_set().contains(operation));
    assert(held.contains(operation) <==> held.to_set().contains(operation));
    if held.contains(operation) {
        let g = held.index_of(operation);
        assert(grants[g].capability == operation);
    }
    if exists|i: int| 0 <= i < grants.len() && (#[trigger] grants[i]).capability == operation {
        let g = choose|i: int|
            0 <= i < grants.len() && (#[trigger] grants[i]).capability == operation;
        assert(held[g] == operation);
    }
}

/// A refusal names who was refused what: by the session, whoever runs innermost; by a
/// manifest, the innermost skill that does not declare the operation.
pub proof fn law_refusals_name_who_was_refused(
    stack: Seq<AttributionModel>,
    operation: HostCapability,
    session_allowed: bool,
)
    requires
        denial(stack, operation, session_allowed) is Some,
    ensures
        ({
            let d = denial(stack, operation, session_allowed)->0;
            &&& d.operation == operation
            &&& d.reason is SessionDenied <==> !session_allowed
            &&& !session_allowed && stack.len() > 0 ==> d.skill_id == stack.last().skill_id
                && d.export_name == stack.last().export_name
            &&& stack.len() == 0 ==> d.skill_id.len() == 0 && d.export_name.len() == 0
            &&& session_allowed ==> exists|i: int|
                0 <= i < stack.len() && (#[trigger] stack[i]).skill_id == d.skill_id
                    && stack[i].export_name == d.export_name && !stack[i].manifest.allows(
                    operation,
                ) && forall|j: int|
                    i < j < stack.len() ==> (#[trigger] stack[j]).manifest.allows(operation)
        }),
{
    if session_allowed {
        lemma_innermost(stack, operation, stack.len() as int);
    }
}

proof fn lemma_innermost(stack: Seq<AttributionModel>, operation: HostCapability, n: int)
    requires
        0 <= n <= stack.len(),
    ensures
        innermost_denying(stack, operation, n) matches Some(i) ==> 0 <= i < n
            && !stack[i].manifest.allows(operation) && forall|j: int|
            i < j < n ==> (#[trigger] stack[j]).manifest.allows(operation),
    decreases n,
{
    if n > 0 {
        lemma_innermost(stack, operation, n - 1);
    }
}

/// Whether skills of a tier may run without a human.
pub fn tier_may_automate(tier: CapabilityTier) -> (r: bool)
    ensures
        r == (tier == CapabilityTier::Pure || tier == CapabilityTier::ReadOnly),
{
    match tier {
        CapabilityTier::Pure | CapabilityTier::ReadOnly => true,
        CapabilityTier::SideEffecting => false,
    }
}

} // verus!
