//! Authenticated, targeted, append-only skill feedback.

use crate::digest;
use crate::store::{
    FeedbackAuditModel, FeedbackAuditRow, FeedbackModel, FeedbackRow, FeedbackStatsModel,
    FeedbackStatsRow, InvokedModel, SkillStore, StoreModel,
};
use crate::text;
use vstd::prelude::*;
use vstd::string::*;

verus! {

pub const MAX_FEEDBACK_REASON_BYTES: usize = 512;

/// Maximum bytes accepted for `reason_code`, which is copied verbatim into the
/// append-only audit table.
pub const MAX_FEEDBACK_REASON_CODE_BYTES: usize = 64;

/// Maximum bytes accepted for `idempotency_key`.
pub const MAX_FEEDBACK_IDEMPOTENCY_KEY_BYTES: usize = 128;

/// Longest offending-value fragment echoed back in a format error.
pub const MALFORMED_ID_PREVIEW_CHARS: usize = 72;

/// The bytes in front of every feedback identity.
pub const FEEDBACK_DOMAIN: &'static str = "mini-agent/targeted-feedback/v1";

#[derive(Debug, Clone, Copy, PartialEq, Eq, Structural)]
pub enum ActorKind {
    Owner,
    Reviewer,
    Model,
    Anonymous,
}

/// Who submits feedback, and on which skills.
#[derive(Debug, Clone)]
pub struct AuthenticatedActor {
    pub actor_id: String,
    pub kind: ActorKind,
    /// The skills the actor may target; all where there is no list.
    pub allowed_skill_ids: Option<Vec<String>>,
}

impl AuthenticatedActor {
    pub open spec fn targets(self, skill_id: Seq<char>) -> bool {
        &&& self.kind == ActorKind::Owner || self.kind == ActorKind::Reviewer
        &&& self.actor_id@.len() > 0
        &&& self.allowed_skill_ids is Some ==> text::views(self.allowed_skill_ids->0@).contains(
            skill_id,
        )
    }

    /// Whether the actor may submit feedback on a skill.
    pub fn may_target(&self, skill_id: &str) -> (r: bool)
        ensures
            r == self.targets(skill_id@),
    {
        let trusted = match self.kind {
            ActorKind::Owner | ActorKind::Reviewer => true,
            _ => false,
        };
        let in_scope = match &self.allowed_skill_ids {
            None => true,
            Some(allowed) => text::contains_text(allowed, skill_id),
        };
        trusted && !self.actor_id.as_str().is_empty() && in_scope
    }
}

#[derive(Debug, Clone, Copy, PartialEq, Eq, Structural)]
pub enum FeedbackKind {
    Positive,
    Negative,
    Severe,
}

impl FeedbackKind {
    pub open spec fn spec_token(self) -> Seq<char> {
        match self {
            FeedbackKind::Positive => "positive"@,
            FeedbackKind::Negative => "negative"@,
            FeedbackKind::Severe => "severe"@,
        }
    }

    pub fn token(self) -> (r: &'static str)
        ensures
            r@ == self.spec_token(),
    {
        match self {
            FeedbackKind::Positive => "positive",
            FeedbackKind::Negative => "negative",
            FeedbackKind::Severe => "severe",
        }
    }
}

/// Feedback that an actor wants recorded.
#[derive(Debug, Clone)]
pub struct FeedbackCommand {
    pub idempotency_key: String,
    pub skill_id: String,
    pub invocation_id: Option<String>,
    pub kind: FeedbackKind,
    pub reason_code: String,
    pub reason_text: Option<String>,
}

#[derive(Debug, Clone, Copy, PartialEq, Eq, Structural)]
pub enum FeedbackState {
    Active,
    Resolved,
    Retracted,
}

impl FeedbackState {
    pub open spec fn spec_token(self) -> Seq<char> {
        match self {
            FeedbackState::Active => "active"@,
            FeedbackState::Resolved => "resolved"@,
            FeedbackState::Retracted => "retracted"@,
        }
    }

    pub fn token(self) -> (r: &'static str)
        ensures
            r@ == self.spec_token(),
    {
        match self {
            FeedbackState::Active => "active",
            FeedbackState::Resolved => "resolved",
            FeedbackState::Retracted => "retracted",
        }
    }
}

/// Why feedback was refused.
#[derive(Debug, Clone, PartialEq, Eq)]
pub enum FeedbackError {
    Unauthorized,
    UnknownSkill { skill_id: String },
    UnknownInvocation { invocation_id: String, retention_days: i64 },
    InvocationSkillMismatch { invocation_id: String, skill_id: String },
    UnknownFeedback { feedback_id: String },
    InvalidFeedback { field: &'static str, rule: &'static str },
    MalformedId { field: &'static str, value: String },
    UnsupportedSevereReasonCode { reason_code: String },
    IdempotencyConflict,
    InvalidStateTransition,
}

/// The contents of a [`FeedbackError`].
#[verifier::ext_equal]
pub enum FeedbackFault {
    Unauthorized,
    UnknownSkill { skill_id: Seq<char> },
    UnknownInvocation { invocation_id: Seq<char>, retention_days: i64 },
    InvocationSkillMismatch { invocation_id: Seq<char>, skill_id: Seq<char> },
    UnknownFeedback { feedback_id: Seq<char> },
    InvalidFeedback { field: Seq<char>, rule: Seq<char> },
    MalformedId { field: Seq<char>, value: Seq<char> },
    UnsupportedSevereReasonCode { reason_code: Seq<char> },
    IdempotencyConflict,
    InvalidStateTransition,
}

impl View for FeedbackError {
    type V = FeedbackFault;

    open spec fn view(&self) -> FeedbackFault {
        match *self {
            FeedbackError::Unauthorized => FeedbackFault::Unauthorized,
            FeedbackError::UnknownSkill { skill_id } => {
                FeedbackFault::UnknownSkill { skill_id: skill_id@ }
            },
            FeedbackError::UnknownInvocation { invocation_id, retention_days } => {
                FeedbackFault::UnknownInvocation { invocation_id: invocation_id@, retention_days }
            },
            FeedbackError::InvocationSkillMismatch { invocation_id, skill_id } => {
                FeedbackFault::InvocationSkillMismatch {
                    invocation_id: invocation_id@,
                    skill_id: skill_id@,
                }
            },
            FeedbackError::UnknownFeedback { feedback_id } => {
                FeedbackFault::UnknownFeedback { feedback_id: feedback_id@ }
            },
            FeedbackError::InvalidFeedback { field, rule } => {
                FeedbackFault::InvalidFeedback { field: field@, rule: rule@ }
            },
            FeedbackError::MalformedId { field, value } => {
                FeedbackFault::MalformedId { field: field@, value: value@ }
            },
            FeedbackError::UnsupportedSevereReasonCode { reason_code } => {
                FeedbackFault::UnsupportedSevereReasonCode { reason_code: reason_code@ }
            },
            FeedbackError::IdempotencyConflict => FeedbackFault::IdempotencyConflict,
            FeedbackError::InvalidStateTransition => FeedbackFault::InvalidStateTransition,
        }
    }
}

impl FeedbackFault {
    /// The sentence that reports the fault.
    pub open spec fn sentence(self) -> Seq<char> {
        match self {
            FeedbackFault::Unauthorized => {
                "actor is unauthenticated or outside the target scope"@
            },
            FeedbackFault::UnknownSkill { skill_id } => {
                "no learned-skill revision `"@ + skill_id + "` exists"@
            },
            FeedbackFault::UnknownInvocation { invocation_id, retention_days } => {
                "invocation `"@ + invocation_id
                    + "` has no recorded `invoked` event in raw skill telemetry; raw events are retained for "@
                    + text::signed_decimal(retention_days as int)
                    + " days and are compacted into daily aggregates afterwards, so an older invocation id can no longer be attributed"@
            },
            FeedbackFault::InvocationSkillMismatch { invocation_id, skill_id } => {
                "invocation `"@ + invocation_id
                    + "` was recorded for a different learned skill than `"@ + skill_id + "`"@
            },
            FeedbackFault::UnknownFeedback { feedback_id } => {
                "feedback record `"@ + feedback_id + "` does not exist"@
            },
            FeedbackFault::InvalidFeedback { field, rule } => {
                "feedback field `"@ + field + "` is invalid: "@ + rule
            },
            FeedbackFault::MalformedId { field, value } => {
                "feedback field `"@ + field
                    + "` must be 64 lowercase hexadecimal characters as copied from telemetry, not `"@
                    + value + "`"@
            },
            FeedbackFault::UnsupportedSevereReasonCode { reason_code } => {
                "severe feedback requires reason_code to be one of `integrity`, `permission_violation` or `unsafe_effect`; `"@
                    + reason_code
                    + "` is not one of them, so submit it as negative feedback instead"@
            },
            FeedbackFault::IdempotencyConflict => {
                "idempotency key was reused for different feedback"@
            },
            FeedbackFault::InvalidStateTransition => {
                "feedback state transition is stale or illegal"@
            },
        }
    }
}

impl FeedbackError {
    /// The sentence that reports the error.
    pub fn message(&self) -> (r: String)
        ensures
            r@ == self@.sentence(),
    {
        match self {
            FeedbackError::Unauthorized => {
                "actor is unauthenticated or outside the target scope".to_owned()
            },
            FeedbackError::UnknownSkill { skill_id } => {
                text::join3("no learned-skill revision `", skill_id, "` exists")
            },
            FeedbackError::UnknownInvocation { invocation_id, retention_days } => {
                let days = text::render_i64(*retention_days);
                let mut out = text::join3(
                    "invocation `",
                    invocation_id,
                    "` has no recorded `invoked` event in raw skill telemetry; raw events are retained for ",
                );
                out.append(&days);
                out.append(
                    " days and are compacted into daily aggregates afterwards, so an older invocation id can no longer be attributed",
                );
                out
            },
            FeedbackError::InvocationSkillMismatch { invocation_id, skill_id } => {
                let mut out = text::join3(
                    "invocation `",
                    invocation_id,
                    "` was recorded for a different learned skill than `",
                );
                out.append(skill_id);
                out.append("`");
                out
            },
            FeedbackError::UnknownFeedback { feedback_id } => {
                text::join3("feedback record `", feedback_id, "` does not exist")
            },
            FeedbackError::InvalidFeedback { field, rule } => {
                let mut out = text::join3("feedback field `", field, "` is invalid: ");
                out.append(rule);
                out
            },
            FeedbackError::MalformedId { field, value } => {
                let mut out = text::join3(
                    "feedback field `",
                    field,
                    "` must be 64 lowercase hexadecimal characters as copied from telemetry, not `",
                );
                out.append(value);
                out.append("`");
                out
            },
            FeedbackError::UnsupportedSevereReasonCode { reason_code } => {
                text::join3(
                    "severe feedback requires reason_code to be one of `integrity`, `permission_violation` or `unsafe_effect`; `",
                    reason_code,
                    "` is not one of them, so submit it as negative feedback instead",
                )
            },
            FeedbackError::IdempotencyConflict => {
                "idempotency key was reused for different feedback".to_owned()
            },
            FeedbackError::InvalidStateTransition => {
                "feedback state transition is stale or illegal".to_owned()
            },
        }
    }
}

/// An ASCII letter, digit, `.`, `_`, `:` or `-`.
pub open spec fn is_key_char(c: char) -> bool {
    let n = c as u32;
    48 <= n <= 57 || 65 <= n <= 90 || 97 <= n <= 122 || c == '.' || c == '_' || c == ':' || c == '-'
}

/// A small ASCII letter or `_`.
pub open spec fn is_code_char(c: char) -> bool {
    97 <= c as u32 <= 122 || c == '_'
}

pub open spec fn invalid(field: Seq<char>, rule: Seq<char>) -> Option<FeedbackFault> {
    Some(FeedbackFault::InvalidFeedback { field, rule })
}

pub open spec fn key_fault(key: Seq<char>) -> Option<FeedbackFault> {
    if key.len() == 0 {
        invalid("idempotency_key"@, "must not be empty"@)
    } else if text::utf8_len(key) > MAX_FEEDBACK_IDEMPOTENCY_KEY_BYTES {
        invalid("idempotency_key"@, "must not exceed 128 bytes"@)
    } else if !(forall|i: int| 0 <= i < key.len() ==> is_key_char(#[trigger] key[i])) {
        invalid(
            "idempotency_key"@,
            "must contain only ASCII letters, digits, '.', '_', ':' or '-'"@,
        )
    } else {
        None
    }
}

pub open spec fn reason_code_fault(code: Seq<char>) -> Option<FeedbackFault> {
    if code.len() == 0 {
        invalid("reason_code"@, "must not be empty"@)
    } else if text::utf8_len(code) > MAX_FEEDBACK_REASON_CODE_BYTES {
        invalid("reason_code"@, "must not exceed 64 bytes"@)
    } else if !(forall|i: int| 0 <= i < code.len() ==> is_code_char(#[trigger] code[i])) {
        invalid("reason_code"@, "must contain only lowercase ASCII letters and '_'"@)
    } else {
        None
    }
}

/// The beginning of a value, with an ellipsis where more follows.
pub open spec fn previewed(value: Seq<char>) -> Seq<char> {
    if value.len() > MALFORMED_ID_PREVIEW_CHARS {
        value.take(MALFORMED_ID_PREVIEW_CHARS as int).push('…')
    } else {
        value
    }
}

pub open spec fn hex_id_fault(field: Seq<char>, value: Seq<char>) -> Option<FeedbackFault> {
    if digest::is_full_lower_hex(value) {
        None
    } else {
        Some(FeedbackFault::MalformedId { field, value: previewed(value) })
    }
}

pub open spec fn timestamp_fault(created_at: i64) -> Option<FeedbackFault> {
    if created_at < 0 {
        invalid("created_at"@, "must not be negative"@)
    } else {
        None
    }
}

/// The reason codes that may accompany severe feedback.
pub open spec fn is_severe_code(code: Seq<char>) -> bool {
    code == "integrity"@ || code == "permission_violation"@ || code == "unsafe_effect"@
}

/// What is wrong with a command by itself.
pub open spec fn command_fault(actor: AuthenticatedActor, command: FeedbackCommand) -> Option<
    FeedbackFault,
> {
    let invocation = match command.invocation_id {
        Some(id) => hex_id_fault("invocation_id"@, id@),
        None => None,
    };
    if !actor.targets(command.skill_id@) {
        Some(FeedbackFault::Unauthorized)
    } else if key_fault(command.idempotency_key@) is Some {
        key_fault(command.idempotency_key@)
    } else if hex_id_fault("skill_id"@, command.skill_id@) is Some {
        hex_id_fault("skill_id"@, command.skill_id@)
    } else if invocation is Some {
        invocation
    } else if reason_code_fault(command.reason_code@) is Some {
        reason_code_fault(command.reason_code@)
    } else if command.reason_text is Some && text::utf8_len(command.reason_text->0@)
        > MAX_FEEDBACK_REASON_BYTES {
        invalid("reason_text"@, "must not exceed 512 bytes"@)
    } else if command.kind == FeedbackKind::Severe && !is_severe_code(command.reason_code@) {
        Some(FeedbackFault::UnsupportedSevereReasonCode { reason_code: command.reason_code@ })
    } else {
        None
    }
}

/// The key is echoed in conflict reports, so it is bounded and restricted to
/// characters that survive logging verbatim.
pub fn validate_idempotency_key(key: &str) -> (r: Result<(), FeedbackError>)
    ensures
        match r {
            Ok(()) => key_fault(key@) is None,
            Err(e) => key_fault(key@) == Some(e@),
        },
{
    if key.is_empty() {
        return Err(
            FeedbackError::InvalidFeedback { field: "idempotency_key", rule: "must not be empty" },
        );
    }
    if text::byte_len(key) > MAX_FEEDBACK_IDEMPOTENCY_KEY_BYTES {
        return Err(
            FeedbackError::InvalidFeedback {
                field: "idempotency_key",
                rule: "must not exceed 128 bytes",
            },
        );
    }
    let chars = text::chars_of(key);
    let mut i: usize = 0;
    while i < chars.len()
        invariant
            i <= chars@.len(),
            chars@ == key@,
            key@.len() > 0,
            text::utf8_len(key@) <= MAX_FEEDBACK_IDEMPOTENCY_KEY_BYTES,
            forall|j: int| 0 <= j < i ==> is_key_char(#[trigger] key@[j]),
        decreases chars@.len() - i,
    {
        let c: char = chars[i];
        let n: u32 = c as u32;
        if !((48 <= n && n <= 57) || (65 <= n && n <= 90) || (97 <= n && n <= 122) || c == '.' || c
            == '_' || c == ':' || c == '-') {
            assert(!is_key_char(key@[i as int]));
            return Err(
                FeedbackError::InvalidFeedback {
                    field: "idempotency_key",
                    rule: "must contain only ASCII letters, digits, '.', '_', ':' or '-'",
                },
            );
        }
        i = i + 1;
    }
    Ok(())
}

/// `reason_code` is copied unredacted into the audit, so it stays a closed-shape
/// token rather than free text.
pub fn validate_reason_code(reason_code: &str) -> (r: Result<(), FeedbackError>)
    ensures
        match r {
            Ok(()) => reason_code_fault(reason_code@) is None,
            Err(e) => reason_code_fault(reason_code@) == Some(e@),
        },
{
    if reason_code.is_empty() {
        return Err(
            FeedbackError::InvalidFeedback { field: "reason_code", rule: "must not be empty" },
        );
    }
    if text::byte_len(reason_code) > MAX_FEEDBACK_REASON_CODE_BYTES {
        return Err(
            FeedbackError::InvalidFeedback {
                field: "reason_code",
                rule: "must not exceed 64 bytes",
            },
        );
    }
    let chars = text::chars_of(reason_code);
    let mut i: usize = 0;
    while i < chars.len()
        invariant
            i <= chars@.len(),
            chars@ == reason_code@,
            reason_code@.len() > 0,
            text::utf8_len(reason_code@) <= MAX_FEEDBACK_REASON_CODE_BYTES,
            forall|j: int| 0 <= j < i ==> is_code_char(#[trigger] reason_code@[j]),
        decreases chars@.len() - i,
    {
        let c: char = chars[i];
        let n: u32 = c as u32;
        if !((97 <= n && n <= 122) || c == '_') {
            assert(!is_code_char(reason_code@[i as int]));
            return Err(
                FeedbackError::InvalidFeedback {
                    field: "reason_code",
                    rule: "must contain only lowercase ASCII letters and '_'",
                },
            );
        }
        i = i + 1;
    }
    Ok(())
}

fn preview(value: &str) -> (r: String)
    ensures
        r@ == previewed(value@),
{
    let chars = text::chars_of(value);
    if chars.len() > MALFORMED_ID_PREVIEW_CHARS {
        let mut out = text::string_of(&chars, 0, MALFORMED_ID_PREVIEW_CHARS);
        out.push('…');
        assert(chars@.subrange(0, MALFORMED_ID_PREVIEW_CHARS as int) =~= value@.take(
            MALFORMED_ID_PREVIEW_CHARS as int,
        ));
        out
    } else {
        value.to_owned()
    }
}

/// Rejects an id of the wrong shape, so that a typo is not reported as a missing
/// target.
pub fn validate_hex_id(field: &'static str, value: &str) -> (r: Result<(), FeedbackError>)
    ensures
        match r {
            Ok(()) => hex_id_fault(field@, value@) is None,
            Err(e) => hex_id_fault(field@, value@) == Some(e@),
        },
{
    if digest::full_lower_hex(value) {
        return Ok(());
    }
    Err(FeedbackError::MalformedId { field, value: preview(value) })
}

pub fn validate_timestamp(created_at: i64) -> (r: Result<(), FeedbackError>)
    ensures
        match r {
            Ok(()) => timestamp_fault(created_at) is None,
            Err(e) => timestamp_fault(created_at) == Some(e@),
        },
{
    if created_at < 0 {
        return Err(
            FeedbackError::InvalidFeedback { field: "created_at", rule: "must not be negative" },
        );
    }
    Ok(())
}

/// Checks a command by itself.
pub fn validate_command(actor: &AuthenticatedActor, command: &FeedbackCommand) -> (r: Result<
    (),
    FeedbackError,
>)
    ensures
        match r {
            Ok(()) => command_fault(*actor, *command) is None,
            Err(e) => command_fault(*actor, *command) == Some(e@),
        },
{
    if !actor.may_target(&command.skill_id) {
        return Err(FeedbackError::Unauthorized);
    }
    match validate_idempotency_key(&command.idempotency_key) {
        Ok(()) => {},
        Err(e) => {
            return Err(e);
        },
    }
    match validate_hex_id("skill_id", &command.skill_id) {
        Ok(()) => {},
        Err(e) => {
            return Err(e);
        },
    }
    if let Some(invocation_id) = &command.invocation_id {
        match validate_hex_id("invocation_id", invocation_id) {
            Ok(()) => {},
            Err(e) => {
                return Err(e);
            },
        }
    }
    match validate_reason_code(&command.reason_code) {
        Ok(()) => {},
        Err(e) => {
            return Err(e);
        },
    }
    if let Some(reason_text) = &command.reason_text {
        if text::byte_len(reason_text) > MAX_FEEDBACK_REASON_BYTES {
            return Err(
                FeedbackError::InvalidFeedback {
                    field: "reason_text",
                    rule: "must not exceed 512 bytes",
                },
            );
        }
    }
    if command.kind == FeedbackKind::Severe && !text::same(&command.reason_code, "integrity")
        && !text::same(&command.reason_code, "permission_violation") && !text::same(
        &command.reason_code,
        "unsafe_effect",
    ) {
        return Err(
            FeedbackError::UnsupportedSevereReasonCode {
                reason_code: command.reason_code.clone(),
            },
        );
    }
    Ok(())
}

/// A text as a big-endian length-prefixed field of its UTF-8 bytes.
pub open spec fn text_field_be(s: Seq<char>) -> Seq<u8> {
    digest::field_be(vstd::utf8::encode_utf8(s))
}

/// An optional text, or nothing.
pub open spec fn or_empty(o: Option<Seq<char>>) -> Seq<char> {
    match o {
        Some(s) => s,
        None => Seq::empty(),
    }
}

/// The bytes that a feedback identity hashes.
pub open spec fn feedback_bytes(
    key: Seq<char>,
    skill_id: Seq<char>,
    invocation_id: Seq<char>,
    kind: FeedbackKind,
    reason_code: Seq<char>,
) -> Seq<u8> {
    vstd::utf8::encode_utf8(FEEDBACK_DOMAIN@) + text_field_be(key) + text_field_be(skill_id)
        + text_field_be(invocation_id) + text_field_be(kind.spec_token()) + text_field_be(
        reason_code,
    )
}

/// The identity of a piece of feedback.
pub open spec fn feedback_identity(command: FeedbackCommand) -> Seq<char> {
    digest::hex(
        digest::sha256(
            feedback_bytes(
                command.idempotency_key@,
                command.skill_id@,
                or_empty(text::opt_view(command.invocation_id)),
                command.kind,
                command.reason_code@,
            ),
        ),
    )
}

/// Computes the identity of a piece of feedback.
pub fn feedback_id(command: &FeedbackCommand) -> (r: String)
    ensures
        r@ == feedback_identity(*command),
        digest::is_full_lower_hex(r@),
{
    let mut bytes: Vec<u8> = Vec::new();
    digest::push_bytes(&mut bytes, FEEDBACK_DOMAIN.as_bytes());
    assert(bytes@ =~= vstd::utf8::encode_utf8(FEEDBACK_DOMAIN@));
    digest::push_field_be(&mut bytes, command.idempotency_key.as_str().as_bytes());
    digest::push_field_be(&mut bytes, command.skill_id.as_str().as_bytes());
    let invocation_id = match &command.invocation_id {
        Some(id) => id.clone(),
        None => String::new(),
    };
    digest::push_field_be(&mut bytes, invocation_id.as_str().as_bytes());
    digest::push_field_be(&mut bytes, command.kind.token().as_bytes());
    digest::push_field_be(&mut bytes, command.reason_code.as_str().as_bytes());
    let hashed = digest::sha256_bytes(&bytes);
    proof {
        digest::lemma_hex_is_full(hashed@);
    }
    digest::hex_lower(&hashed)
}

proof fn lemma_kind_tokens_fit(kind: FeedbackKind)
    ensures
        vstd::utf8::encode_utf8(kind.spec_token()).len() <= u64::MAX,
{
    reveal_strlit("positive");
    reveal_strlit("negative");
    reveal_strlit("severe");
    vstd::utf8::is_ascii_chars_encode_utf8(kind.spec_token());
}

proof fn lemma_kind_tokens_differ(a: FeedbackKind, b: FeedbackKind)
    ensures
        a.spec_token() == b.spec_token() <==> a == b,
{
    reveal_strlit("positive");
    reveal_strlit("negative");
    reveal_strlit("severe");
    assert("positive"@[0] == 'p');
    assert("negative"@[0] == 'n');
    assert("severe"@[0] == 's');
}

/// The bytes behind a feedback identity determine every value that goes into it.
pub proof fn law_feedback_bytes_are_injective(
    a: (Seq<char>, Seq<char>, Seq<char>, FeedbackKind, Seq<char>),
    b: (Seq<char>, Seq<char>, Seq<char>, FeedbackKind, Seq<char>),
)
    requires
        text::utf8_len(a.0) <= u64::MAX,
        text::utf8_len(a.1) <= u64::MAX,
        text::utf8_len(a.2) <= u64::MAX,
        text::utf8_len(a.4) <= u64::MAX,
        text::utf8_len(b.0) <= u64::MAX,
        text::utf8_len(b.1) <= u64::MAX,
        text::utf8_len(b.2) <= u64::MAX,
        text::utf8_len(b.4) <= u64::MAX,
        feedback_bytes(a.0, a.1, a.2, a.3, a.4) == feedback_bytes(b.0, b.1, b.2, b.3, b.4),
    ensures
        a == b,
{
    let d = vstd::utf8::encode_utf8(FEEDBACK_DOMAIN@);
    let (a4, b4) = (text_field_be(a.4), text_field_be(b.4));
    let (a3, b3) = (
        text_field_be(a.3.spec_token()) + a4,
        text_field_be(b.3.spec_token()) + b4,
    );
    let (a2, b2) = (text_field_be(a.2) + a3, text_field_be(b.2) + b3);
    let (a1, b1) = (text_field_be(a.1) + a2, text_field_be(b.1) + b2);
    let (a0, b0) = (text_field_be(a.0) + a1, text_field_be(b.0) + b1);
    lemma_feedback_bytes_nested(a.0, a.1, a.2, a.3, a.4);
    lemma_feedback_bytes_nested(b.0, b.1, b.2, b.3, b.4);
    assert(a0 =~= (d + a0).skip(d.len() as int));
    assert(b0 =~= (d + b0).skip(d.len() as int));
    lemma_text_field_be_prefix(a.0, a1, b.0, b1);
    lemma_text_field_be_prefix(a.1, a2, b.1, b2);
    lemma_text_field_be_prefix(a.2, a3, b.2, b3);
    lemma_kind_tokens_fit(a.3);
    lemma_kind_tokens_fit(b.3);
    lemma_text_field_be_prefix(a.3.spec_token(), a4, b.3.spec_token(), b4);
    lemma_kind_tokens_differ(a.3, b.3);
    assert(a4 + Seq::<u8>::empty() =~= a4);
    assert(b4 + Seq::<u8>::empty() =~= b4);
    lemma_text_field_be_prefix(a.4, Seq::empty(), b.4, Seq::empty());
}

proof fn lemma_text_field_be_prefix(x: Seq<char>, s: Seq<u8>, y: Seq<char>, t: Seq<u8>)
    requires
        text::utf8_len(x) <= u64::MAX,
        text::utf8_len(y) <= u64::MAX,
        text_field_be(x) + s == text_field_be(y) + t,
    ensures
        x == y,
        s == t,
{
    digest::lemma_field_be_prefix(vstd::utf8::encode_utf8(x), s, vstd::utf8::encode_utf8(y), t);
    digest::lemma_utf8_injective(x, y);
}

proof fn lemma_feedback_bytes_nested(
    k: Seq<char>,
    s: Seq<char>,
    i: Seq<char>,
    kind: FeedbackKind,
    c: Seq<char>,
)
    ensures
        feedback_bytes(k, s, i, kind, c) == vstd::utf8::encode_utf8(FEEDBACK_DOMAIN@) + (
        text_field_be(k) + (text_field_be(s) + (text_field_be(i) + (text_field_be(
            kind.spec_token(),
        ) + text_field_be(c))))),
{
    let d = vstd::utf8::encode_utf8(FEEDBACK_DOMAIN@);
    let (k, s, i, t, c) = (
        text_field_be(k),
        text_field_be(s),
        text_field_be(i),
        text_field_be(kind.spec_token()),
        text_field_be(c),
    );
    digest::lemma_assoc(d + k + s + i, t, c);
    digest::lemma_assoc(d + k + s, i, t + c);
    digest::lemma_assoc(d + k, s, i + (t + c));
    digest::lemma_assoc(d, k, s + (i + (t + c)));
}

pub open spec fn invoked_as(invocation_id: Seq<char>) -> spec_fn(InvokedModel) -> bool {
    |r: InvokedModel| r.invocation_id == invocation_id
}

pub open spec fn feedback_with_key(key: Seq<char>) -> spec_fn(FeedbackModel) -> bool {
    |r: FeedbackModel| r.idempotency_key == key
}

pub open spec fn feedback_with_id(id: Seq<char>) -> spec_fn(FeedbackModel) -> bool {
    |r: FeedbackModel| r.feedback_id == id
}

pub open spec fn stats_of(skill_id: Seq<char>) -> spec_fn(FeedbackStatsModel) -> bool {
    |r: FeedbackStatsModel| r.skill_id == skill_id
}

/// What raw telemetry holds against the invocation that feedback names.
pub open spec fn invocation_fault(
    s: StoreModel,
    command: FeedbackCommand,
    retention_days: i64,
) -> Option<FeedbackFault> {
    match command.invocation_id {
        None => None,
        Some(id) => match crate::store::position(s.invocations, invoked_as(id@)) {
            None => Some(
                FeedbackFault::UnknownInvocation { invocation_id: id@, retention_days },
            ),
            Some(i) => if s.invocations[i].skill_id != command.skill_id@ {
                Some(
                    FeedbackFault::InvocationSkillMismatch {
                        invocation_id: id@,
                        skill_id: command.skill_id@,
                    },
                )
            } else {
                None
            },
        },
    }
}

/// The row that records feedback.
pub open spec fn feedback_record(
    actor: AuthenticatedActor,
    command: FeedbackCommand,
    reason_text: Option<Seq<char>>,
    created_at: i64,
) -> FeedbackModel {
    FeedbackModel {
        feedback_id: feedback_identity(command),
        idempotency_key: command.idempotency_key@,
        skill_id: command.skill_id@,
        invocation_id: text::opt_view(command.invocation_id),
        actor_id: actor.actor_id@,
        feedback_kind: command.kind.spec_token(),
        reason_code: command.reason_code@,
        reason_text,
        state: "active"@,
        version: 1,
        created_at,
        updated_at: created_at,
    }
}

/// Stored feedback says what new feedback would say, whatever became of it since.
pub open spec fn same_feedback(a: FeedbackModel, b: FeedbackModel) -> bool {
    &&& a.feedback_id == b.feedback_id
    &&& a.skill_id == b.skill_id
    &&& a.invocation_id == b.invocation_id
    &&& a.actor_id == b.actor_id
    &&& a.feedback_kind == b.feedback_kind
    &&& a.reason_code == b.reason_code
    &&& a.reason_text == b.reason_text
}

/// The counters with one report added.
pub open spec fn with_report(
    rows: Seq<FeedbackStatsModel>,
    skill_id: Seq<char>,
    kind: FeedbackKind,
    created_at: i64,
) -> Seq<FeedbackStatsModel> {
    let positive: int = if kind == FeedbackKind::Positive {
        1
    } else {
        0
    };
    match crate::store::position(rows, stats_of(skill_id)) {
        None => rows.push(
            FeedbackStatsModel {
                skill_id,
                user_positive_count: positive as i64,
                user_negative_count: (1 - positive) as i64,
                updated_at: created_at,
            },
        ),
        Some(i) => rows.update(
            i,
            FeedbackStatsModel {
                skill_id: rows[i].skill_id,
                user_positive_count: (rows[i].user_positive_count + positive) as i64,
                user_negative_count: (rows[i].user_negative_count + 1 - positive) as i64,
                updated_at: if rows[i].updated_at >= created_at {
                    rows[i].updated_at
                } else {
                    created_at
                },
            },
        ),
    }
}

/// What submitting feedback comes to: its identity and the store after it.
pub open spec fn submit_result(
    s: StoreModel,
    actor: AuthenticatedActor,
    command: FeedbackCommand,
    reason_text: Option<Seq<char>>,
    retention_days: i64,
    created_at: i64,
) -> Result<(Seq<char>, StoreModel), FeedbackFault> {
    let record = feedback_record(actor, command, reason_text, created_at);
    if command_fault(actor, command) is Some {
        Err(command_fault(actor, command)->0)
    } else if timestamp_fault(created_at) is Some {
        Err(timestamp_fault(created_at)->0)
    } else if s.revision(command.skill_id@) is None {
        Err(FeedbackFault::UnknownSkill { skill_id: command.skill_id@ })
    } else if invocation_fault(s, command, retention_days) is Some {
        Err(invocation_fault(s, command, retention_days)->0)
    } else {
        match crate::store::position(s.feedback, feedback_with_key(command.idempotency_key@)) {
            Some(i) => if same_feedback(s.feedback[i], record) {
                Ok((s.feedback[i].feedback_id, s))
            } else {
                Err(FeedbackFault::IdempotencyConflict)
            },
            None => Ok(
                (
                    record.feedback_id,
                    StoreModel {
                        feedback: s.feedback.push(record),
                        feedback_audit: s.feedback_audit.push(
                            FeedbackAuditModel {
                                feedback_id: record.feedback_id,
                                from_state: None,
                                to_state: "active"@,
                                actor_id: actor.actor_id@,
                                reason_code: command.reason_code@,
                                version: 1,
                                created_at,
                            },
                        ),
                        feedback_stats: with_report(
                            s.feedback_stats,
                            command.skill_id@,
                            command.kind,
                            created_at,
                        ),
                        ..s
                    },
                ),
            ),
        }
    }
}

/// What changing the state of feedback comes to.
pub open spec fn change_state_result(
    s: StoreModel,
    actor: AuthenticatedActor,
    feedback_id: Seq<char>,
    expected_version: i64,
    next: FeedbackState,
    reason_code: Seq<char>,
    created_at: i64,
) -> Result<StoreModel, FeedbackFault> {
    if feedback_id.len() == 0 {
        Err(
            FeedbackFault::InvalidFeedback { field: "feedback_id"@, rule: "must not be empty"@ },
        )
    } else if reason_code_fault(reason_code) is Some {
        Err(reason_code_fault(reason_code)->0)
    } else if timestamp_fault(created_at) is Some {
        Err(timestamp_fault(created_at)->0)
    } else {
        match crate::store::position(s.feedback, feedback_with_id(feedback_id)) {
            None => Err(FeedbackFault::UnknownFeedback { feedback_id }),
            Some(i) => if !actor.targets(s.feedback[i].skill_id) {
                Err(FeedbackFault::Unauthorized)
            } else if s.feedback[i].state != "active"@ || s.feedback[i].version != expected_version
                || next == FeedbackState::Active {
                Err(FeedbackFault::InvalidStateTransition)
            } else {
                Ok(
                    StoreModel {
                        feedback: s.feedback.update(
                            i,
                            FeedbackModel {
                                state: next.spec_token(),
                                version: (expected_version + 1) as i64,
                                updated_at: created_at,
                                ..s.feedback[i]
                            },
                        ),
                        feedback_audit: s.feedback_audit.push(
                            FeedbackAuditModel {
                                feedback_id,
                                from_state: Some("active"@),
                                to_state: next.spec_token(),
                                actor_id: actor.actor_id@,
                                reason_code,
                                version: (expected_version + 1) as i64,
                                created_at,
                            },
                        ),
                        ..s
                    },
                )
            },
        }
    }
}

fn find_invocation(store: &SkillStore, invocation_id: &str) -> (r: Option<usize>)
    ensures
        match r {
            Some(i) => i < store.invocations@.len() && crate::store::position(
                store@.invocations,
                invoked_as(invocation_id@),
            ) == Some(i as int),
            None => crate::store::position(store@.invocations, invoked_as(invocation_id@)) is None,
        },
{
    let ghost p = invoked_as(invocation_id@);
    let mut i: usize = 0;
    while i < store.invocations.len()
        invariant
            i <= store.invocations@.len(),
            p == invoked_as(invocation_id@),
            forall|j: int| 0 <= j < i ==> !p(#[trigger] store@.invocations[j]),
        decreases store.invocations@.len() - i,
    {
        assert(store@.invocations[i as int] == store.invocations@[i as int]@);
        if text::same(&store.invocations[i].invocation_id, invocation_id) {
            proof {
                crate::store::lemma_position_found(store@.invocations, p, i as int);
            }
            return Some(i);
        }
        i = i + 1;
    }
    proof {
        crate::store::lemma_position_missing(store@.invocations, p);
    }
    None
}

fn find_feedback_by_key(store: &SkillStore, key: &str) -> (r: Option<usize>)
    ensures
        match r {
            Some(i) => i < store.feedback@.len() && crate::store::position(
                store@.feedback,
                feedback_with_key(key@),
            ) == Some(i as int),
            None => crate::store::position(store@.feedback, feedback_with_key(key@)) is None,
        },
{
    let ghost p = feedback_with_key(key@);
    let mut i: usize = 0;
    while i < store.feedback.len()
        invariant
            i <= store.feedback@.len(),
            p == feedback_with_key(key@),
            forall|j: int| 0 <= j < i ==> !p(#[trigger] store@.feedback[j]),
        decreases store.feedback@.len() - i,
    {
        assert(store@.feedback[i as int] == store.feedback@[i as int]@);
        if text::same(&store.feedback[i].idempotency_key, key) {
            proof {
                crate::store::lemma_position_found(store@.feedback, p, i as int);
            }
            return Some(i);
        }
        i = i + 1;
    }
    proof {
        crate::store::lemma_position_missing(store@.feedback, p);
    }
    None
}

fn find_feedback_by_id(store: &SkillStore, id: &str) -> (r: Option<usize>)
    ensures
        match r {
            Some(i) => i < store.feedback@.len() && crate::store::position(
                store@.feedback,
                feedback_with_id(id@),
            ) == Some(i as int),
            None => crate::store::position(store@.feedback, feedback_with_id(id@)) is None,
        },
{
    let ghost p = feedback_with_id(id@);
    let mut i: usize = 0;
    while i < store.feedback.len()
        invariant
            i <= store.feedback@.len(),
            p == feedback_with_id(id@),
            forall|j: int| 0 <= j < i ==> !p(#[trigger] store@.feedback[j]),
        decreases store.feedback@.len() - i,
    {
        assert(store@.feedback[i as int] == store.feedback@[i as int]@);
        if text::same(&store.feedback[i].feedback_id, id) {
            proof {
                crate::store::lemma_position_found(store@.feedback, p, i as int);
            }
            return Some(i);
        }
        i = i + 1;
    }
    proof {
        crate::store::lemma_position_missing(store@.feedback, p);
    }
    None
}

fn find_stats(store: &SkillStore, skill_id: &str) -> (r: Option<usize>)
    ensures
        match r {
            Some(i) => i < store.feedback_stats@.len() && crate::store::position(
                store@.feedback_stats,
                stats_of(skill_id@),
            ) == Some(i as int),
            None => crate::store::position(store@.feedback_stats, stats_of(skill_id@)) is None,
        },
{
    let ghost p = stats_of(skill_id@);
    let mut i: usize = 0;
    while i < store.feedback_stats.len()
        invariant
            i <= store.feedback_stats@.len(),
            p == stats_of(skill_id@),
            forall|j: int| 0 <= j < i ==> !p(#[trigger] store@.feedback_stats[j]),
        decreases store.feedback_stats@.len() - i,
    {
        assert(store@.feedback_stats[i as int] == store.feedback_stats@[i as int]@);
        if text::same(&store.feedback_stats[i].skill_id, skill_id) {
            proof {
                crate::store::lemma_position_found(store@.feedback_stats, p, i as int);
            }
            return Some(i);
        }
        i = i + 1;
    }
    proof {
        crate::store::lemma_position_missing(store@.feedback_stats, p);
    }
    None
}

/// Every counter can still be advanced.
pub open spec fn counters_fit(s: StoreModel) -> bool {
    forall|i: int|
        0 <= i < s.feedback_stats.len() ==> (#[trigger] s.feedback_stats[i]).user_positive_count
            < i64::MAX && s.feedback_stats[i].user_negative_count < i64::MAX
}

fn count_report(store: &mut SkillStore, skill_id: &str, kind: FeedbackKind, created_at: i64)
    requires
        counters_fit(old(store)@),
    ensures
        final(store)@ == (StoreModel {
            feedback_stats: with_report(old(store)@.feedback_stats, skill_id@, kind, created_at),
            ..old(store)@
        }),
{
    let ghost before = store@;
    let positive: i64 = if kind == FeedbackKind::Positive {
        1
    } else {
        0
    };
    match find_stats(store, skill_id) {
        None => {
            store.feedback_stats.push(
                FeedbackStatsRow {
                    skill_id: skill_id.to_owned(),
                    user_positive_count: positive,
                    user_negative_count: 1 - positive,
                    updated_at: created_at,
                },
            );
        },
        Some(i) => {
            assert(before.feedback_stats[i as int] == store.feedback_stats@[i as int]@);
            let row = &mut store.feedback_stats[i];
            row.user_positive_count = row.user_positive_count + positive;
            row.user_negative_count = row.user_negative_count + (1 - positive);
            if row.updated_at < created_at {
                row.updated_at = created_at;
            }
        },
    }
    assert(store@.feedback_stats =~= with_report(
        before.feedback_stats,
        skill_id@,
        kind,
        created_at,
    ));
}

/// Records feedback.
///
/// `reason_text` is the command's reason text after redaction.
pub fn submit_in(
    store: &mut SkillStore,
    actor: &AuthenticatedActor,
    command: &FeedbackCommand,
    reason_text: Option<String>,
    retention_days: i64,
    created_at: i64,
) -> (r: Result<String, FeedbackError>)
    requires
        counters_fit(old(store)@),
    ensures
        match submit_result(
            old(store)@,
            *actor,
            *command,
            text::opt_view(reason_text),
            retention_days,
            created_at,
        ) {
            Ok((id, next)) => r is Ok && r->Ok_0@ == id && final(store)@ == next,
            Err(f) => r is Err && r->Err_0@ == f && final(store)@ == old(store)@,
        },
{
    match validate_command(actor, command) {
        Ok(()) => {},
        Err(e) => {
            return Err(e);
        },
    }
    match validate_timestamp(created_at) {
        Ok(()) => {},
        Err(e) => {
            return Err(e);
        },
    }
    if store.find_revision(&command.skill_id).is_none() {
        return Err(FeedbackError::UnknownSkill { skill_id: command.skill_id.clone() });
    }
    if let Some(invocation_id) = &command.invocation_id {
        match find_invocation(store, invocation_id) {
            None => {
                return Err(
                    FeedbackError::UnknownInvocation {
                        invocation_id: invocation_id.clone(),
                        retention_days,
                    },
                );
            },
            Some(i) => {
                assert(store@.invocations[i as int] == store.invocations@[i as int]@);
                if !text::same(&store.invocations[i].skill_id, &command.skill_id) {
                    return Err(
                        FeedbackError::InvocationSkillMismatch {
                            invocation_id: invocation_id.clone(),
                            skill_id: command.skill_id.clone(),
                        },
                    );
                }
            },
        }
    }
    let id = feedback_id(command);
    if let Some(i) = find_feedback_by_key(store, &command.idempotency_key) {
        let existing = &store.feedback[i];
        assert(store@.feedback[i as int] == existing@);
        if text::same(&existing.feedback_id, &id) && text::same(
            &existing.skill_id,
            &command.skill_id,
        ) && text::same_opt(&existing.invocation_id, &command.invocation_id) && text::same(
            &existing.actor_id,
            &actor.actor_id,
        ) && text::same(&existing.feedback_kind, command.kind.token()) && text::same(
            &existing.reason_code,
            &command.reason_code,
        ) && text::same_opt(&existing.reason_text, &reason_text) {
            return Ok(existing.feedback_id.clone());
        }
        return Err(FeedbackError::IdempotencyConflict);
    }
    let ghost before = store@;
    let ghost record = feedback_record(*actor, *command, text::opt_view(reason_text), created_at);
    store.feedback.push(
        FeedbackRow {
            feedback_id: id.clone(),
            idempotency_key: command.idempotency_key.clone(),
            skill_id: command.skill_id.clone(),
            invocation_id: text::clone_opt(&command.invocation_id),
            actor_id: actor.actor_id.clone(),
            feedback_kind: command.kind.token().to_owned(),
            reason_code: command.reason_code.clone(),
            reason_text,
            state: "active".to_owned(),
            version: 1,
            created_at,
            updated_at: created_at,
        },
    );
    assert(store@.feedback =~= before.feedback.push(record));
    store.feedback_audit.push(
        FeedbackAuditRow {
            feedback_id: id.clone(),
            from_state: None,
            to_state: "active".to_owned(),
            actor_id: actor.actor_id.clone(),
            reason_code: command.reason_code.clone(),
            version: 1,
            created_at,
        },
    );
    assert(store@.feedback_audit =~= before.feedback_audit.push(
        FeedbackAuditModel {
            feedback_id: record.feedback_id,
            from_state: None,
            to_state: "active"@,
            actor_id: actor.actor_id@,
            reason_code: command.reason_code@,
            version: 1,
            created_at,
        },
    ));
    count_report(store, &command.skill_id, command.kind, created_at);
    Ok(id)
}

/// Resolves or retracts active feedback.
pub fn change_state_in(
    store: &mut SkillStore,
    actor: &AuthenticatedActor,
    feedback_id: &str,
    expected_version: i64,
    next: FeedbackState,
    reason_code: &str,
    created_at: i64,
) -> (r: Result<(), FeedbackError>)
    requires
        expected_version < i64::MAX,
    ensures
        match change_state_result(
            old(store)@,
            *actor,
            feedback_id@,
            expected_version,
            next,
            reason_code@,
            created_at,
        ) {
            Ok(after) => r is Ok && final(store)@ == after,
            Err(f) => r is Err && r->Err_0@ == f && final(store)@ == old(store)@,
        },
{
    if feedback_id.is_empty() {
        return Err(
            FeedbackError::InvalidFeedback { field: "feedback_id", rule: "must not be empty" },
        );
    }
    match validate_reason_code(reason_code) {
        Ok(()) => {},
        Err(e) => {
            return Err(e);
        },
    }
    match validate_timestamp(created_at) {
        Ok(()) => {},
        Err(e) => {
            return Err(e);
        },
    }
    let i = match find_feedback_by_id(store, feedback_id) {
        Some(i) => i,
        None => {
            return Err(FeedbackError::UnknownFeedback { feedback_id: feedback_id.to_owned() });
        },
    };
    let ghost before = store@;
    assert(before.feedback[i as int] == store.feedback@[i as int]@);
    if !actor.may_target(&store.feedback[i].skill_id) {
        return Err(FeedbackError::Unauthorized);
    }
    if !text::same(&store.feedback[i].state, "active") || store.feedback[i].version
        != expected_version || next == FeedbackState::Active {
        return Err(FeedbackError::InvalidStateTransition);
    }
    let next_version: i64 = expected_version + 1;
    let row = &mut store.feedback[i];
    row.state = next.token().to_owned();
    row.version = next_version;
    row.updated_at = created_at;
    proof {
        assert(store@.feedback =~= before.feedback.update(
            i as int,
            FeedbackModel {
                state: next.spec_token(),
                version: next_version,
                updated_at: created_at,
                ..before.feedback[i as int]
            },
        ));
    }
    let audit = FeedbackAuditRow {
        feedback_id: feedback_id.to_owned(),
        from_state: Some("active".to_owned()),
        to_state: next.token().to_owned(),
        actor_id: actor.actor_id.clone(),
        reason_code: reason_code.to_owned(),
        version: next_version,
        created_at,
    };
    store.feedback_audit.push(audit);
    assert(store@.feedback_audit =~= before.feedback_audit.push(audit@));
    Ok(())
}

/// Records and maintains targeted feedback.
pub struct FeedbackService<'a> {
    pub store: &'a mut SkillStore,
    /// Whole days of raw telemetry that are kept before compaction.
    pub retention_days: i64,
}

impl<'a> FeedbackService<'a> {
    pub fn new(store: &'a mut SkillStore, retention_days: i64) -> (r: FeedbackService<'a>)
        ensures
            *r.store == *old(store),
            *final(r.store) == *final(store),
            r.retention_days == retention_days,
    {
        FeedbackService { store, retention_days }
    }

    /// Records feedback; `reason_text` is the command's reason text after
    /// redaction.
    pub fn submit(
        &mut self,
        actor: &AuthenticatedActor,
        command: &FeedbackCommand,
        reason_text: Option<String>,
        created_at: i64,
    ) -> (r: Result<String, FeedbackError>)
        requires
            counters_fit(old(self).store@),
        ensures
            *final(final(self).store) == *final(old(self).store),
            final(self).retention_days == old(self).retention_days,
            match submit_result(
                old(self).store@,
                *actor,
                *command,
                text::opt_view(reason_text),
                old(self).retention_days,
                created_at,
            ) {
                Ok((id, next)) => r is Ok && r->Ok_0@ == id && final(self).store@ == next,
                Err(f) => r is Err && r->Err_0@ == f && final(self).store@ == old(self).store@,
            },
    {
        submit_in(self.store, actor, command, reason_text, self.retention_days, created_at)
    }

    /// Resolves or retracts active feedback.
    pub fn change_state(
        &mut self,
        actor: &AuthenticatedActor,
        feedback_id: &str,
        expected_version: i64,
        next: FeedbackState,
        reason_code: &str,
        created_at: i64,
    ) -> (r: Result<(), FeedbackError>)
        requires
            expected_version < i64::MAX,
        ensures
            *final(final(self).store) == *final(old(self).store),
            final(self).retention_days == old(self).retention_days,
            match change_state_result(
                old(self).store@,
                *actor,
                feedback_id@,
                expected_version,
                next,
                reason_code@,
                created_at,
            ) {
                Ok(after) => r is Ok && final(self).store@ == after,
                Err(f) => r is Err && r->Err_0@ == f && final(self).store@ == old(self).store@,
            },
    {
        change_state_in(
            self.store,
            actor,
            feedback_id,
            expected_version,
            next,
            reason_code,
            created_at,
        )
    }
}

/// Submitting the same feedback again gives the recorded identity and changes
/// nothing.
pub proof fn law_submission_is_idempotent(
    s: StoreModel,
    actor: AuthenticatedActor,
    command: FeedbackCommand,
    reason_text: Option<Seq<char>>,
    retention_days: i64,
    created_at: i64,
    again_at: i64,
)
    requires
        submit_result(s, actor, command, reason_text, retention_days, created_at) is Ok,
        again_at >= 0,
    ensures
        ({
            let (id, next) = submit_result(
                s,
                actor,
                command,
                reason_text,
                retention_days,
                created_at,
            )->Ok_0;
            submit_result(next, actor, command, reason_text, retention_days, again_at) == Ok::<
                _,
                FeedbackFault,
            >((id, next))
        }),
{
    let (id, next) = submit_result(
        s,
        actor,
        command,
        reason_text,
        retention_days,
        created_at,
    )->Ok_0;
    let p = feedback_with_key(command.idempotency_key@);
    assert(next.revisions == s.revisions);
    assert(next.invocations == s.invocations);
    if crate::store::position(s.feedback, p) is None {
        let n = s.feedback.len() as int;
        assert forall|j: int| 0 <= j < n implies !p(#[trigger] next.feedback[j]) by {
            assert(next.feedback[j] == s.feedback[j]);
            if p(s.feedback[j]) {
                crate::store::lemma_some_match_is_found(s.feedback, p, j);
            }
        }
        crate::store::lemma_position_found(next.feedback, p, n);
    }
}

/// Feedback is append-only: what was stored before stays, in its place.
pub proof fn law_submission_appends(
    s: StoreModel,
    actor: AuthenticatedActor,
    command: FeedbackCommand,
    reason_text: Option<Seq<char>>,
    retention_days: i64,
    created_at: i64,
)
    requires
        submit_result(s, actor, command, reason_text, retention_days, created_at) is Ok,
    ensures
        ({
            let next = submit_result(
                s,
                actor,
                command,
                reason_text,
                retention_days,
                created_at,
            )->Ok_0.1;
            &&& s.feedback.is_prefix_of(next.feedback)
            &&& s.feedback_audit.is_prefix_of(next.feedback_audit)
            &&& next.revisions == s.revisions
            &&& next.transitions == s.transitions
        }),
{
}

/// Resolving or retracting a report leaves the counts of reports alone, and what was
/// audited before stays.
pub proof fn law_state_changes_keep_the_counts(
    s: StoreModel,
    actor: AuthenticatedActor,
    feedback_id: Seq<char>,
    expected_version: i64,
    next: FeedbackState,
    reason_code: Seq<char>,
    created_at: i64,
)
    requires
        change_state_result(
            s,
            actor,
            feedback_id,
            expected_version,
            next,
            reason_code,
            created_at,
        ) is Ok,
    ensures
        ({
            let after = change_state_result(
                s,
                actor,
                feedback_id,
                expected_version,
                next,
                reason_code,
                created_at,
            )->Ok_0;
            &&& after.feedback_stats == s.feedback_stats
            &&& after.feedback.len() == s.feedback.len()
            &&& s.feedback_audit.is_prefix_of(after.feedback_audit)
            &&& after.revisions == s.revisions
        }),
{
}

/// A report is closed once: after it was resolved or retracted, no change of its state
/// succeeds.
pub proof fn law_reports_are_closed_once(
    s: StoreModel,
    actor: AuthenticatedActor,
    feedback_id: Seq<char>,
    expected_version: i64,
    next: FeedbackState,
    reason_code: Seq<char>,
    created_at: i64,
    again: AuthenticatedActor,
    again_version: i64,
    again_next: FeedbackState,
    again_code: Seq<char>,
    again_at: i64,
)
    requires
        change_state_result(
            s,
            actor,
            feedback_id,
            expected_version,
            next,
            reason_code,
            created_at,
        ) is Ok,
    ensures
        change_state_result(
            change_state_result(
                s,
                actor,
                feedback_id,
                expected_version,
                next,
                reason_code,
                created_at,
            )->Ok_0,
            again,
            feedback_id,
            again_version,
            again_next,
            again_code,
            again_at,
        ) is Err,
{
    reveal_strlit("active");
    reveal_strlit("resolved");
    reveal_strlit("retracted");
    let after = change_state_result(
        s,
        actor,
        feedback_id,
        expected_version,
        next,
        reason_code,
        created_at,
    )->Ok_0;
    let p = feedback_with_id(feedback_id);
    let i = crate::store::position(s.feedback, p)->0;
    assert(crate::store::first_match(s.feedback, p, i));
    assert forall|j: int| 0 <= j < i implies !p(#[trigger] after.feedback[j]) by {
        assert(after.feedback[j] == s.feedback[j]);
    }
    assert(crate::store::first_match(after.feedback, p, i));
    crate::store::lemma_position_found(after.feedback, p, i);
    assert(next.spec_token().len() != "active"@.len());
}

/// An actor may speak on a skill: one with a name, who is neither a model nor anonymous and
/// whose list, where there is one, holds the skill.
pub open spec fn may_speak_on(actor: AuthenticatedActor, skill_id: Seq<char>) -> bool {
    &&& !(actor.kind is Model) && !(actor.kind is Anonymous)
    &&& actor.actor_id@.len() > 0
    &&& actor.allowed_skill_ids is None || exists|i: int|
        0 <= i < actor.allowed_skill_ids->0@.len() && (
        #[trigger] actor.allowed_skill_ids->0@[i])@ == skill_id
}

proof fn lemma_may_speak_on(actor: AuthenticatedActor, skill_id: Seq<char>)
    ensures
        actor.targets(skill_id) <==> may_speak_on(actor, skill_id),
{
    if actor.allowed_skill_ids is Some {
        let ids = actor.allowed_skill_ids->0@;
        let all = text::views(ids);
        if all.contains(skill_id) {
            let i = all.index_of(skill_id);
            assert(ids[i]@ == skill_id);
        }
        if exists|i: int| 0 <= i < ids.len() && (#[trigger] ids[i])@ == skill_id {
            let i = choose|i: int| 0 <= i < ids.len() && (#[trigger] ids[i])@ == skill_id;
            assert(all[i] == skill_id);
        }
    }
}

/// A reason code is short and made of small letters and underscores.
pub open spec fn is_reason_code(code: Seq<char>) -> bool {
    &&& code.len() > 0
    &&& text::utf8_len(code) <= 64
    &&& forall|i: int|
        0 <= i < code.len() ==> ('a' as u32 <= #[trigger] code[i] as u32 && code[i] as u32
            <= 'z' as u32) || code[i] == '_'
}

/// New feedback is taken exactly where the actor may speak on the skill, every part of it
/// is well formed, a severe report has one of the three severe reasons, the time is not
/// negative, the skill is known, and the invocation, where one is named, is known and was
/// one of that skill.
pub proof fn law_feedback_is_taken_only_where_it_belongs(
    s: StoreModel,
    actor: AuthenticatedActor,
    command: FeedbackCommand,
    reason_text: Option<Seq<char>>,
    retention_days: i64,
    created_at: i64,
)
    requires
        forall|i: int|
            0 <= i < s.feedback.len() ==> (#[trigger] s.feedback[i]).idempotency_key
                != command.idempotency_key@,
        forall|i: int, j: int|
            0 <= i < j < s.invocations.len() ==> (#[trigger] s.invocations[i]).invocation_id != (
            #[trigger] s.invocations[j]).invocation_id,
    ensures
        submit_result(s, actor, command, reason_text, retention_days, created_at) is Ok <==> {
            let key = command.idempotency_key@;
            let code = command.reason_code@;
            &&& may_speak_on(actor, command.skill_id@)
            &&& 0 < key.len() && text::utf8_len(key) <= 128
            &&& forall|i: int| 0 <= i < key.len() ==> is_key_char(#[trigger] key[i])
            &&& digest::is_full_lower_hex(command.skill_id@)
            &&& is_reason_code(code)
            &&& command.reason_text is Some ==> text::utf8_len(command.reason_text->0@) <= 512
            &&& command.kind is Severe ==> code == "integrity"@ || code == "permission_violation"@
                || code == "unsafe_effect"@
            &&& created_at >= 0
            &&& s.revision(command.skill_id@) is Some
            &&& command.invocation_id is Some ==> digest::is_full_lower_hex(
                command.invocation_id->0@,
            ) && exists|i: int|
                0 <= i < s.invocations.len() && (#[trigger] s.invocations[i]).invocation_id
                    == command.invocation_id->0@ && s.invocations[i].skill_id == command.skill_id@
        },
{
    lemma_may_speak_on(actor, command.skill_id@);
    let key = command.idempotency_key@;
    let code = command.reason_code@;
    crate::store::lemma_position_missing(s.feedback, feedback_with_key(key));
    assert(reason_code_fault(code) is None <==> is_reason_code(code)) by {
        if reason_code_fault(code) is None {
            assert forall|i: int| 0 <= i < code.len() implies ('a' as u32
                <= #[trigger] code[i] as u32 && code[i] as u32 <= 'z' as u32) || code[i] == '_' by {
                assert(is_code_char(code[i]));
            }
        }
        if is_reason_code(code) {
            assert forall|i: int| 0 <= i < code.len() implies is_code_char(#[trigger] code[i]) by {
                let c = code[i];
            }
        }
    }
    if command.invocation_id is Some {
        let id = command.invocation_id->0@;
        let p = invoked_as(id);
        if exists|i: int|
            0 <= i < s.invocations.len() && (#[trigger] s.invocations[i]).invocation_id == id {
            let i = choose|i: int|
                0 <= i < s.invocations.len() && (#[trigger] s.invocations[i]).invocation_id == id;
            crate::store::lemma_some_match_is_found(s.invocations, p, i);
            let at = crate::store::position(s.invocations, p)->0;
            assert(crate::store::first_match(s.invocations, p, at));
            assert(s.invocations[at].invocation_id == id);
            assert forall|k: int|
                0 <= k < s.invocations.len() && (
                #[trigger] s.invocations[k]).invocation_id == id implies k == at by {
                if k < at {
                    assert(s.invocations[k].invocation_id != s.invocations[at].invocation_id);
                } else if at < k {
                    assert(s.invocations[at].invocation_id != s.invocations[k].invocation_id);
                }
            }
        } else {
            crate::store::lemma_position_missing(s.invocations, p);
        }
    }
}

/// How many reports of a sort the counters hold of a skill.
pub open spec fn reports_of(
    rows: Seq<FeedbackStatsModel>,
    skill_id: Seq<char>,
    positive: bool,
) -> int
    decreases rows.len(),
{
    if rows.len() == 0 {
        0
    } else {
        reports_of(rows.drop_last(), skill_id, positive) + if rows.last().skill_id != skill_id {
            0
        } else if positive {
            rows.last().user_positive_count as int
        } else {
            rows.last().user_negative_count as int
        }
    }
}

proof fn lemma_reports_updated(
    rows: Seq<FeedbackStatsModel>,
    i: int,
    row: FeedbackStatsModel,
    skill_id: Seq<char>,
    positive: bool,
)
    requires
        0 <= i < rows.len(),
        row.skill_id == rows[i].skill_id,
    ensures
        reports_of(rows.update(i, row), skill_id, positive) == reports_of(
            rows,
            skill_id,
            positive,
        ) + if row.skill_id != skill_id {
            0
        } else if positive {
            row.user_positive_count - rows[i].user_positive_count
        } else {
            row.user_negative_count - rows[i].user_negative_count
        },
    decreases rows.len(),
{
    let after = rows.update(i, row);
    if i == rows.len() - 1 {
        assert(after.drop_last() =~= rows.drop_last());
    } else {
        assert(after.drop_last() =~= rows.drop_last().update(i, row));
        assert(after.last() == rows.last());
        lemma_reports_updated(rows.drop_last(), i, row, skill_id, positive);
    }
}

/// New feedback is recorded as it was given: under its key, on its skill and invocation,
/// by its actor, of its kind and for its reason, open and in its first version, with a
/// line in the audit. It is counted once, for its skill alone: a positive report as
/// positive, a negative or severe one as negative.
pub proof fn law_feedback_is_recorded_and_counted_as_given(
    s: StoreModel,
    actor: AuthenticatedActor,
    command: FeedbackCommand,
    reason_text: Option<Seq<char>>,
    retention_days: i64,
    created_at: i64,
    skill_id: Seq<char>,
)
    requires
        submit_result(s, actor, command, reason_text, retention_days, created_at) is Ok,
        counters_fit(s),
        forall|i: int|
            0 <= i < s.feedback.len() ==> (#[trigger] s.feedback[i]).idempotency_key
                != command.idempotency_key@,
    ensures
        ({
            let (id, next) = submit_result(
                s,
                actor,
                command,
                reason_text,
                retention_days,
                created_at,
            )->Ok_0;
            let row = next.feedback.last();
            let line = next.feedback_audit.last();
            let same_skill: int = if skill_id == command.skill_id@ { 1 } else { 0 };
            let positive: int = if command.kind is Positive { 1 } else { 0 };
            &&& next.feedback.len() == s.feedback.len() + 1
            &&& next.feedback_audit.len() == s.feedback_audit.len() + 1
            &&& row.feedback_id == id && line.feedback_id == id
            &&& row.idempotency_key == command.idempotency_key@
            &&& row.skill_id == command.skill_id@
            &&& row.invocation_id == text::opt_view(command.invocation_id)
            &&& row.actor_id == actor.actor_id@ && line.actor_id == actor.actor_id@
            &&& row.feedback_kind == match command.kind {
                FeedbackKind::Positive => "positive"@,
                FeedbackKind::Negative => "negative"@,
                FeedbackKind::Severe => "severe"@,
            }
            &&& row.reason_code == command.reason_code@ && line.reason_code == command.reason_code@
            &&& row.reason_text == reason_text
            &&& row.state == "active"@ && line.to_state == "active"@ && line.from_state is None
            &&& row.version == 1 && line.version == 1
            &&& row.created_at == created_at && line.created_at == created_at
            &&& reports_of(next.feedback_stats, skill_id, true) == reports_of(
                s.feedback_stats,
                skill_id,
                true,
            ) + same_skill * positive
            &&& reports_of(next.feedback_stats, skill_id, false) == reports_of(
                s.feedback_stats,
                skill_id,
                false,
            ) + same_skill * (1 - positive)
        }),
{
    let rows = s.feedback_stats;
    let p = stats_of(command.skill_id@);
    crate::store::lemma_position_missing(
        s.feedback,
        feedback_with_key(command.idempotency_key@),
    );
    let after = with_report(rows, command.skill_id@, command.kind, created_at);
    match crate::store::position(rows, p) {
        None => {
            assert(after.drop_last() =~= rows);
        },
        Some(i) => {
            assert(crate::store::first_match(rows, p, i));
            lemma_reports_updated(rows, i, after[i], skill_id, true);
            lemma_reports_updated(rows, i, after[i], skill_id, false);
        },
    }
}

/// A key stands for one piece of feedback: feedback that says anything else under a key
/// that is taken is a conflict, and the feedback that has the key stays the only one.
pub proof fn law_a_key_stands_for_one_report(
    s: StoreModel,
    actor: AuthenticatedActor,
    command: FeedbackCommand,
    reason_text: Option<Seq<char>>,
    retention_days: i64,
    created_at: i64,
    i: int,
)
    requires
        0 <= i < s.feedback.len(),
        s.feedback[i].idempotency_key == command.idempotency_key@,
        forall|j: int|
            0 <= j < i ==> (#[trigger] s.feedback[j]).idempotency_key != command.idempotency_key@,
    ensures
        ({
            let r = submit_result(s, actor, command, reason_text, retention_days, created_at);
            let row = s.feedback[i];
            &&& r matches Ok(done) ==> done == (row.feedback_id, s)
            &&& r is Ok ==> row.skill_id == command.skill_id@ && row.actor_id == actor.actor_id@
                && row.invocation_id == text::opt_view(command.invocation_id) && row.reason_code
                == command.reason_code@ && row.reason_text == reason_text && row.feedback_kind
                == command.kind.spec_token()
        }),
{
    crate::store::lemma_position_found(
        s.feedback,
        feedback_with_key(command.idempotency_key@),
        i,
    );
}

/// A report is closed by an actor who may speak on its skill, from the version that was
/// seen, while it is open, and to a state that is not open. Just its state, its version
/// and the time change, and the audit gets a line for it.
pub proof fn law_closing_a_report_changes_just_that_report(
    s: StoreModel,
    actor: AuthenticatedActor,
    i: int,
    expected_version: i64,
    next: FeedbackState,
    reason_code: Seq<char>,
    created_at: i64,
)
    requires
        0 <= i < s.feedback.len(),
        expected_version < i64::MAX,
        forall|j: int|
            0 <= j < i ==> (#[trigger] s.feedback[j]).feedback_id != s.feedback[i].feedback_id,
    ensures
        ({
            let row = s.feedback[i];
            let r = change_state_result(
                s,
                actor,
                row.feedback_id,
                expected_version,
                next,
                reason_code,
                created_at,
            );
            &&& r is Ok <==> {
                &&& row.feedback_id.len() > 0
                &&& reason_code_fault(reason_code) is None
                &&& created_at >= 0
                &&& may_speak_on(actor, row.skill_id)
                &&& row.state == "active"@
                &&& row.version == expected_version
                &&& next is Resolved || next is Retracted
            }
            &&& r matches Ok(after) ==> {
                let closed = if next is Resolved {
                    "resolved"@
                } else {
                    "retracted"@
                };
                let line = after.feedback_audit.last();
                &&& after.feedback[i] == (FeedbackModel {
                    state: closed,
                    version: (expected_version + 1) as i64,
                    updated_at: created_at,
                    ..row
                })
                &&& forall|j: int|
                    0 <= j < s.feedback.len() && j != i ==> #[trigger] after.feedback[j]
                        == s.feedback[j]
                &&& after.feedback_audit.len() == s.feedback_audit.len() + 1
                &&& line.feedback_id == row.feedback_id
                &&& line.from_state == Some("active"@)
                &&& line.to_state == closed
                &&& line.actor_id == actor.actor_id@
                &&& line.reason_code == reason_code
                &&& line.version == expected_version + 1
            }
        }),
{
    lemma_may_speak_on(actor, s.feedback[i].skill_id);
    crate::store::lemma_position_found(
        s.feedback,
        feedback_with_id(s.feedback[i].feedback_id),
        i,
    );
}

} // verus!
