//! What a local owner does with the learned-skill library, and how it is reported.
//!
//! Commands decide on what the store holds, name what they refuse and why, and report
//! in one shape.

use crate::admission::{CanaryApprovalResult, ProposalRecord, ProposalStatus};
use crate::admission;
use crate::artifact::SkillArtifact;
use crate::feedback::FeedbackKind;
use crate::held_out;
use crate::held_out::{HeldOutError, HeldOutFault, HeldOutSuiteDraft};
use crate::json;
use crate::json::{Json, JsonValue};
use crate::lifecycle::{
    EvidenceSnapshot, LifecycleError, LifecycleFault, LifecycleStatus, PolicyInput,
    ReplacementTransitionRequest, RevisionState,
};
use crate::order;
use crate::text;
use vstd::prelude::*;
use vstd::string::*;

verus! {

/// The value of a field of a report.
#[derive(Debug, Clone, PartialEq, Eq)]
pub enum ReportValue {
    Absent,
    Flag(bool),
    Count(u64),
    Number(i64),
    Text(String),
    List(Vec<String>),
    /// Suites, each with whether it is enabled.
    Suites(Vec<(String, bool)>),
}

/// The contents of a [`ReportValue`].
#[verifier::ext_equal]
pub enum ValueModel {
    Absent,
    Flag(bool),
    Count(u64),
    Number(i64),
    Text(Seq<char>),
    List(Seq<Seq<char>>),
    Suites(Seq<(Seq<char>, bool)>),
}

pub open spec fn suite_views(s: Seq<(String, bool)>) -> Seq<(Seq<char>, bool)> {
    s.map_values(|p: (String, bool)| (p.0@, p.1))
}

impl View for ReportValue {
    type V = ValueModel;

    open spec fn view(&self) -> ValueModel {
        match *self {
            ReportValue::Absent => ValueModel::Absent,
            ReportValue::Flag(b) => ValueModel::Flag(b),
            ReportValue::Count(n) => ValueModel::Count(n),
            ReportValue::Number(n) => ValueModel::Number(n),
            ReportValue::Text(s) => ValueModel::Text(s@),
            ReportValue::List(v) => ValueModel::List(text::views(v@)),
            ReportValue::Suites(v) => ValueModel::Suites(suite_views(v@)),
        }
    }
}

/// A text, or a hyphen in place of an empty one.
pub open spec fn shown(s: Seq<char>) -> Seq<char> {
    if s.len() == 0 {
        "-"@
    } else {
        s
    }
}

/// Texts in a row, or a hyphen where there are none.
pub open spec fn shown_list(s: Seq<Seq<char>>) -> Seq<char> {
    if s.len() == 0 {
        "-"@
    } else {
        text::joined(s, ","@)
    }
}

/// A suite as a document.
pub open spec fn suite_document(suite: (Seq<char>, bool)) -> Json {
    Json::Object(seq![("id"@, Json::Text(suite.0)), ("enabled"@, Json::Bool(suite.1))])
}

/// A flag in words.
pub open spec fn flag_text(b: bool) -> Seq<char> {
    if b {
        "true"@
    } else {
        "false"@
    }
}

impl ValueModel {
    /// The value on a line for a person.
    pub open spec fn line_text(self) -> Seq<char> {
        match self {
            ValueModel::Absent => "-"@,
            ValueModel::Flag(b) => flag_text(b),
            ValueModel::Count(n) => text::decimal(n as nat),
            ValueModel::Number(n) => text::signed_decimal(n as int),
            ValueModel::Text(s) => shown(s),
            ValueModel::List(v) => shown_list(v.map_values(|s: Seq<char>| shown(s))),
            ValueModel::Suites(v) => shown_list(
                v.map_values(|s: (Seq<char>, bool)| json::json_rendered(suite_document(s))),
            ),
        }
    }

    /// The value in a document for a program.
    pub open spec fn document(self) -> Json {
        match self {
            ValueModel::Absent => Json::Null,
            ValueModel::Flag(b) => Json::Bool(b),
            ValueModel::Count(n) => Json::Unsigned(n),
            ValueModel::Number(n) => if n >= 0 {
                Json::Unsigned(n as u64)
            } else {
                Json::Negative(n)
            },
            ValueModel::Text(s) => Json::Text(s),
            ValueModel::List(v) => Json::Array(v.map_values(|s: Seq<char>| Json::Text(s))),
            ValueModel::Suites(v) => Json::Array(
                v.map_values(|s: (Seq<char>, bool)| suite_document(s)),
            ),
        }
    }
}

fn show(s: &str) -> (r: String)
    ensures
        r@ == shown(s@),
{
    if s.is_empty() {
        "-".to_owned()
    } else {
        s.to_owned()
    }
}

fn show_list(v: &Vec<String>) -> (r: String)
    ensures
        r@ == shown_list(text::views(v@)),
{
    assert(text::views(v@).len() == v@.len());
    if v.len() == 0 {
        "-".to_owned()
    } else {
        text::join(v, ",")
    }
}

fn suite_tree(id: &str, enabled: bool) -> (r: JsonValue)
    ensures
        r@ == suite_document((id@, enabled)),
{
    let mut entries: Vec<(String, JsonValue)> = Vec::new();
    assert(json::entry_views(entries@) =~= Seq::empty());
    json::push_entry(&mut entries, "id", JsonValue::Text(id.to_owned()));
    json::push_entry(&mut entries, "enabled", JsonValue::Bool(enabled));
    proof {
        json::lemma_object_view(entries);
        assert(json::entry_views(entries@) =~= seq![
            ("id"@, Json::Text(id@)),
            ("enabled"@, Json::Bool(enabled)),
        ]);
    }
    JsonValue::Object(entries)
}

fn render_tree(tree: JsonValue) -> (r: String)
    ensures
        r@ == json::json_rendered(tree@),
{
    match json::render_json(tree) {
        Ok(s) => s,
        Err(_) => String::new(),
    }
}

pub open spec fn shown_texts(v: Seq<Seq<char>>) -> Seq<Seq<char>> {
    v.map_values(|s: Seq<char>| shown(s))
}

pub open spec fn shown_suites(v: Seq<(Seq<char>, bool)>) -> Seq<Seq<char>> {
    v.map_values(|s: (Seq<char>, bool)| json::json_rendered(suite_document(s)))
}

/// Renders a value on a line for a person. What is absent or empty is a hyphen.
pub fn render_text_value(value: &ReportValue) -> (r: String)
    ensures
        r@ == value@.line_text(),
{
    match value {
        ReportValue::Absent => "-".to_owned(),
        ReportValue::Flag(b) => {
            if *b {
                "true".to_owned()
            } else {
                "false".to_owned()
            }
        },
        ReportValue::Count(n) => text::render_u64(*n),
        ReportValue::Number(n) => text::render_i64(*n),
        ReportValue::Text(s) => show(s),
        ReportValue::List(v) => {
            let ghost given = text::views(v@);
            let mut items: Vec<String> = Vec::new();
            let mut i: usize = 0;
            assert(text::views(items@) =~= shown_texts(given).take(0));
            while i < v.len()
                invariant
                    i <= v@.len(),
                    given == text::views(v@),
                    text::views(items@) == shown_texts(given).take(i as int),
                decreases v@.len() - i,
            {
                let ghost before = text::views(items@);
                let item = show(&v[i]);
                proof {
                    assert(given[i as int] == v@[i as int]@);
                    assert(shown_texts(given).take(i + 1) =~= before.push(item@));
                }
                items.push(item);
                assert(text::views(items@) =~= before.push(item@));
                i = i + 1;
            }
            proof {
                assert(shown_texts(given).take(given.len() as int) =~= shown_texts(given));
                assert(shown_texts(given) =~= given.map_values(|s: Seq<char>| shown(s)));
            }
            show_list(&items)
        },
        ReportValue::Suites(v) => {
            let ghost given = suite_views(v@);
            let mut items: Vec<String> = Vec::new();
            let mut i: usize = 0;
            assert(text::views(items@) =~= shown_suites(given).take(0));
            while i < v.len()
                invariant
                    i <= v@.len(),
                    given == suite_views(v@),
                    text::views(items@) == shown_suites(given).take(i as int),
                decreases v@.len() - i,
            {
                let ghost before = text::views(items@);
                let item = render_tree(suite_tree(&v[i].0, v[i].1));
                proof {
                    assert(given[i as int] == (v@[i as int].0@, v@[i as int].1));
                    assert(shown_suites(given).take(i + 1) =~= before.push(item@));
                }
                items.push(item);
                assert(text::views(items@) =~= before.push(item@));
                i = i + 1;
            }
            proof {
                assert(shown_suites(given).take(given.len() as int) =~= shown_suites(given));
                assert(shown_suites(given) =~= given.map_values(
                    |s: (Seq<char>, bool)| json::json_rendered(suite_document(s)),
                ));
            }
            show_list(&items)
        },
    }
}

fn value_tree(value: &ReportValue) -> (r: JsonValue)
    ensures
        r@ == value@.document(),
{
    match value {
        ReportValue::Absent => JsonValue::Null,
        ReportValue::Flag(b) => JsonValue::Bool(*b),
        ReportValue::Count(n) => JsonValue::Unsigned(*n),
        ReportValue::Number(n) => {
            if *n >= 0 {
                JsonValue::Unsigned(*n as u64)
            } else {
                JsonValue::Negative(*n)
            }
        },
        ReportValue::Text(s) => JsonValue::Text(s.clone()),
        ReportValue::List(v) => {
            let ghost wanted = text::views(v@).map_values(|s: Seq<char>| Json::Text(s));
            let mut items: Vec<JsonValue> = Vec::new();
            let mut i: usize = 0;
            while i < v.len()
                invariant
                    i <= v@.len(),
                    wanted == text::views(v@).map_values(|s: Seq<char>| Json::Text(s)),
                    json::json_views(items@) =~= wanted.take(i as int),
                decreases v@.len() - i,
            {
                let ghost before = json::json_views(items@);
                let item = JsonValue::Text(v[i].clone());
                assert(item@ == wanted[i as int]);
                items.push(item);
                assert(json::json_views(items@) =~= before.push(item@));
                i = i + 1;
            }
            assert(wanted.take(wanted.len() as int) =~= wanted);
            proof {
                json::lemma_array_view(items);
            }
            JsonValue::Array(items)
        },
        ReportValue::Suites(v) => {
            let ghost wanted = suite_views(v@).map_values(
                |s: (Seq<char>, bool)| suite_document(s),
            );
            let mut items: Vec<JsonValue> = Vec::new();
            let mut i: usize = 0;
            while i < v.len()
                invariant
                    i <= v@.len(),
                    wanted == suite_views(v@).map_values(
                        |s: (Seq<char>, bool)| suite_document(s),
                    ),
                    json::json_views(items@) =~= wanted.take(i as int),
                decreases v@.len() - i,
            {
                let ghost before = json::json_views(items@);
                let item = suite_tree(&v[i].0, v[i].1);
                proof {
                    assert(suite_views(v@)[i as int] == (v@[i as int].0@, v@[i as int].1));
                    assert(item@ == wanted[i as int]);
                }
                items.push(item);
                assert(json::json_views(items@) =~= before.push(item@));
                i = i + 1;
            }
            assert(wanted.take(wanted.len() as int) =~= wanted);
            proof {
                json::lemma_array_view(items);
            }
            JsonValue::Array(items)
        },
    }
}

/// The result of a command: its name and its fields, in order.
#[derive(Debug, Clone, PartialEq, Eq)]
pub struct OperatorReport {
    pub command: String,
    pub fields: Vec<(String, ReportValue)>,
}

/// The contents of an [`OperatorReport`].
#[verifier::ext_equal]
pub struct ReportModel {
    pub command: Seq<char>,
    pub fields: Seq<(Seq<char>, ValueModel)>,
}

pub open spec fn field_views(s: Seq<(String, ReportValue)>) -> Seq<(Seq<char>, ValueModel)> {
    s.map_values(|p: (String, ReportValue)| (p.0@, p.1@))
}

impl View for OperatorReport {
    type V = ReportModel;

    open spec fn view(&self) -> ReportModel {
        ReportModel { command: self.command@, fields: field_views(self.fields@) }
    }
}

/// Fields on a line, each behind a space.
pub open spec fn fields_text(fields: Seq<(Seq<char>, ValueModel)>) -> Seq<char>
    decreases fields.len(),
{
    if fields.len() == 0 {
        Seq::empty()
    } else {
        fields_text(fields.drop_last()) + seq![' '] + fields.last().0 + seq!['=']
            + fields.last().1.line_text()
    }
}

/// Fields in a document.
pub open spec fn fields_document(fields: Seq<(Seq<char>, ValueModel)>) -> Seq<(Seq<char>, Json)> {
    fields.map_values(|f: (Seq<char>, ValueModel)| (f.0, f.1.document()))
}

impl ReportModel {
    /// A report without fields.
    pub open spec fn of(command: Seq<char>) -> ReportModel {
        ReportModel { command, fields: Seq::empty() }
    }

    /// The report with one more field.
    pub open spec fn and(self, name: Seq<char>, value: ValueModel) -> ReportModel {
        ReportModel { fields: self.fields.push((name, value)), ..self }
    }

    /// The report on a line for a person.
    pub open spec fn line(self) -> Seq<char> {
        "learned-skill "@ + self.command + ":"@ + fields_text(self.fields)
    }

    /// The report as a document for a program.
    pub open spec fn document(self) -> Json {
        Json::Object(
            seq![("command"@, Json::Text(self.command))] + fields_document(self.fields),
        )
    }
}

impl OperatorReport {
    /// A report without fields.
    pub fn new(command: &str) -> (r: OperatorReport)
        ensures
            r@ == ReportModel::of(command@),
    {
        let r = OperatorReport { command: command.to_owned(), fields: Vec::new() };
        assert(field_views(r.fields@) =~= Seq::empty());
        r
    }

    /// Adds a field.
    pub fn with(self, name: &str, value: ReportValue) -> (r: OperatorReport)
        ensures
            r@ == self@.and(name@, value@),
    {
        let mut report = self;
        let ghost before = field_views(report.fields@);
        report.fields.push((name.to_owned(), value));
        assert(field_views(report.fields@) =~= before.push((name@, value@)));
        report
    }

    /// Adds a text.
    pub fn with_text(self, name: &str, value: &str) -> (r: OperatorReport)
        ensures
            r@ == self@.and(name@, ValueModel::Text(value@)),
    {
        self.with(name, ReportValue::Text(value.to_owned()))
    }

    /// Adds a text that may be absent.
    pub fn with_optional(self, name: &str, value: &Option<String>) -> (r: OperatorReport)
        ensures
            r@ == self@.and(name@, optional_text(text::opt_view(*value))),
    {
        match value {
            Some(s) => self.with(name, ReportValue::Text(s.clone())),
            None => self.with(name, ReportValue::Absent),
        }
    }

    /// Renders the report: one line for a person, or one document for a program.
    pub fn render(&self, as_json: bool) -> (r: String)
        ensures
            r@ == if as_json {
                json::json_rendered(self@.document())
            } else {
                self@.line()
            },
    {
        let ghost fields = field_views(self.fields@);
        if as_json {
            let mut entries: Vec<(String, JsonValue)> = Vec::new();
            assert(json::entry_views(entries@) =~= Seq::empty());
            json::push_entry(&mut entries, "command", JsonValue::Text(self.command.clone()));
            let ghost head = seq![("command"@, Json::Text(self.command@))];
            let mut i: usize = 0;
            assert(json::entry_views(entries@) =~= head + fields_document(fields).take(0));
            while i < self.fields.len()
                invariant
                    i <= self.fields@.len(),
                    fields == field_views(self.fields@),
                    json::entry_views(entries@) == head + fields_document(fields).take(i as int),
                decreases self.fields@.len() - i,
            {
                let ghost before = json::entry_views(entries@);
                let value = value_tree(&self.fields[i].1);
                proof {
                    assert(fields[i as int] == (self.fields@[i as int].0@, self.fields@[i as int].1@));
                    assert(fields_document(fields).take(i + 1) =~= fields_document(fields).take(
                        i as int,
                    ).push((self.fields@[i as int].0@, value@)));
                    assert(head + fields_document(fields).take(i + 1) =~= before.push(
                        (self.fields@[i as int].0@, value@),
                    ));
                }
                json::push_entry(&mut entries, &self.fields[i].0, value);
                i = i + 1;
            }
            proof {
                assert(fields_document(fields).take(fields.len() as int) =~= fields_document(
                    fields,
                ));
                json::lemma_object_view(entries);
            }
            return render_tree(JsonValue::Object(entries));
        }
        let mut line = text::join3("learned-skill ", &self.command, ":");
        let ghost start = line@;
        let mut i: usize = 0;
        proof {
            assert(fields.take(0).len() == 0);
            assert(line@ =~= start + fields_text(fields.take(0)));
        }
        while i < self.fields.len()
            invariant
                i <= self.fields@.len(),
                fields == field_views(self.fields@),
                line@ == start + fields_text(fields.take(i as int)),
            decreases self.fields@.len() - i,
        {
            let ghost before = line@;
            let value = render_text_value(&self.fields[i].1);
            line.push(' ');
            line.append(&self.fields[i].0);
            line.push('=');
            line.append(&value);
            proof {
                assert(fields[i as int] == (self.fields@[i as int].0@, self.fields@[i as int].1@));
                assert(fields.take(i + 1).drop_last() =~= fields.take(i as int));
                assert(fields.take(i + 1).last() == fields[i as int]);
                assert(line@ =~= start + fields_text(fields.take(i + 1)));
            }
            i = i + 1;
        }
        assert(fields.take(fields.len() as int) =~= fields);
        line
    }
}

/// A text that may be absent.
pub open spec fn optional_text(value: Option<Seq<char>>) -> ValueModel {
    match value {
        Some(s) => ValueModel::Text(s),
        None => ValueModel::Absent,
    }
}

/// A number that may be absent.
pub open spec fn optional_number(value: Option<i64>) -> ValueModel {
    match value {
        Some(n) => ValueModel::Number(n),
        None => ValueModel::Absent,
    }
}

fn number_or_absent(value: Option<i64>) -> (r: ReportValue)
    ensures
        r@ == optional_number(value),
{
    match value {
        Some(n) => ReportValue::Number(n),
        None => ReportValue::Absent,
    }
}

/// The report that lists the suites.
pub fn suite_listing_report(suites: Vec<(String, bool)>) -> (r: OperatorReport)
    ensures
        r@ == ReportModel::of("list-suites"@).and(
            "suites"@,
            ValueModel::Suites(suite_views(suites@)),
        ),
{
    OperatorReport::new("list-suites").with("suites", ReportValue::Suites(suites))
}

/// The head of the table of usage statistics.
pub const SKILL_STATS_HEADER: &'static str = "id\tstatus\tinvocations\tsuccess\tlast_used_unix\ttasks_with\tpassed_with\tpass_rate_without\tgym_tasks\tuser_positive\tuser_negative\tdeclared_effect_methods\test_round_trips_saved";

/// What the store counts of a revision.
#[derive(Debug, Clone, PartialEq, Eq)]
pub struct UsageRow {
    pub skill_id: String,
    pub identity_version: i64,
    pub status: String,
    pub invocations: i64,
    pub direct_successes: i64,
    pub direct_failures: i64,
    pub last_used: Option<i64>,
    pub tasks_with: i64,
    pub passed_with: i64,
    pub baseline_tasks: i64,
    pub baseline_passes: i64,
    pub gym_tasks: i64,
    pub user_positive: i64,
    pub user_negative: i64,
    pub capability_json: String,
}

/// The usage of a revision. Gym traffic is counted apart, so that it does not inflate
/// what production shows.
#[derive(Debug, Clone, PartialEq, Eq)]
pub struct SkillUsageStats {
    pub skill_id: String,
    pub status: String,
    pub invocations: u64,
    pub direct_successes: u64,
    pub direct_failures: u64,
    pub last_used: Option<i64>,
    pub tasks_with: u64,
    pub passed_with: u64,
    pub baseline_tasks: u64,
    pub baseline_passes: u64,
    pub gym_tasks: u64,
    pub user_positive: u64,
    pub user_negative: u64,
    pub declared_effect_methods: u64,
    pub estimated_round_trips_saved: u64,
}

/// A count that the store holds, or zero where it holds none.
pub open spec fn counted(n: i64) -> u64 {
    if n < 0 {
        0
    } else {
        n as u64
    }
}

fn count(n: i64) -> (r: u64)
    ensures
        r == counted(n),
{
    if n < 0 {
        0
    } else {
        n as u64
    }
}

/// How many grants a capability document declares.
pub open spec fn grants_in(tree: Json) -> u64 {
    match json::member(tree, "manifest"@) {
        Some(manifest) => match json::member(manifest, "grants"@) {
            Some(Json::Array(grants)) => grants.len() as u64,
            _ => 0,
        },
        None => 0,
    }
}

/// How many grants a stored capability declares.
pub open spec fn declared_grants(capability: Seq<char>) -> u64 {
    match json::json_parsed(capability) {
        Some(tree) => grants_in(tree),
        None => 0,
    }
}

/// Counts the grants that a stored capability declares.
pub fn declared_effect_methods(capability_json: &str) -> (r: u64)
    ensures
        r == declared_grants(capability_json@),
{
    match json::parse_json(capability_json) {
        Some(tree) => count_grants(&tree),
        None => 0,
    }
}

/// Counts the grants that a capability document declares.
pub fn count_grants(tree: &JsonValue) -> (r: u64)
    ensures
        r == grants_in(tree@),
{
    let manifest = match json::find_member(tree, "manifest") {
        Some(manifest) => manifest,
        None => {
            return 0;
        },
    };
    match json::find_member(manifest, "grants") {
        Some(JsonValue::Array(grants)) => {
            proof {
                json::lemma_array_view(*grants);
                assert(json::json_views(grants@).len() == grants@.len());
            }
            grants.len() as u64
        },
        _ => 0,
    }
}

/// A product held at the largest number there is.
pub open spec fn product(a: u64, b: u64) -> u64 {
    if a * b > u64::MAX {
        u64::MAX
    } else {
        (a * b) as u64
    }
}

/// The round trips that a skill is taken to have saved: each success spares one for
/// each declared method beyond the first.
pub open spec fn round_trips(successes: u64, methods: u64) -> u64 {
    product(
        successes,
        if methods == 0 {
            0
        } else {
            (methods - 1) as u64
        },
    )
}

/// Estimates the round trips that a skill has saved.
pub fn estimate_round_trips_saved(direct_successes: u64, declared_effect_methods: u64) -> (r: u64)
    ensures
        r == round_trips(direct_successes, declared_effect_methods),
{
    let extra: u64 = if declared_effect_methods == 0 {
        0
    } else {
        declared_effect_methods - 1
    };
    match direct_successes.checked_mul(extra) {
        Some(n) => n,
        None => u64::MAX,
    }
}

/// What a row of the store means.
pub open spec fn usage_of(row: UsageRow, stats: SkillUsageStats) -> bool {
    &&& stats.skill_id == row.skill_id
    &&& stats.status == row.status
    &&& stats.invocations == counted(row.invocations)
    &&& stats.direct_successes == counted(row.direct_successes)
    &&& stats.direct_failures == counted(row.direct_failures)
    &&& stats.last_used == row.last_used
    &&& stats.tasks_with == counted(row.tasks_with)
    &&& stats.passed_with == counted(row.passed_with)
    &&& stats.baseline_tasks == counted(row.baseline_tasks)
    &&& stats.baseline_passes == counted(row.baseline_passes)
    &&& stats.gym_tasks == counted(row.gym_tasks)
    &&& stats.user_positive == counted(row.user_positive)
    &&& stats.user_negative == counted(row.user_negative)
    &&& stats.declared_effect_methods == declared_grants(row.capability_json@)
    &&& stats.estimated_round_trips_saved == round_trips(
        counted(row.direct_successes),
        declared_grants(row.capability_json@),
    )
}

/// The version of the identity that usage is reported for.
pub const REPORTED_IDENTITY_VERSION: i64 = 2;

/// A row goes before another: more invocations, then by id.
pub open spec fn more_used(a: UsageRow, b: UsageRow) -> bool {
    a.invocations > b.invocations || (a.invocations == b.invocations && text::lex_le(
        a.skill_id@,
        b.skill_id@,
    ))
}

/// The rows that are reported, the most used first.
pub open spec fn reported_usage(rows: Seq<UsageRow>) -> Seq<UsageRow> {
    order::arranged(
        rows,
        |row: UsageRow| row.identity_version == REPORTED_IDENTITY_VERSION,
        |a: UsageRow, b: UsageRow| more_used(a, b),
    )
}

fn rank_usage(rows: Vec<UsageRow>) -> (r: Vec<UsageRow>)
    ensures
        r@ == reported_usage(rows@),
{
    let ghost keep = |row: UsageRow| row.identity_version == REPORTED_IDENTITY_VERSION;
    let ghost goes_first = |a: UsageRow, b: UsageRow| more_used(a, b);
    let ghost all = rows@;
    let mut rest = rows;
    let mut out: Vec<UsageRow> = Vec::new();
    let ghost mut k: int = 0;
    proof {
        assert(all.skip(0) =~= all);
        assert(all.take(0).len() == 0);
        assert(out@ =~= order::arranged(all.take(0), keep, goes_first));
    }
    while rest.len() > 0
        invariant
            0 <= k <= all.len(),
            rest@ == all.skip(k),
            keep == |row: UsageRow| row.identity_version == REPORTED_IDENTITY_VERSION,
            goes_first == |a: UsageRow, b: UsageRow| more_used(a, b),
            out@ == order::arranged(all.take(k), keep, goes_first),
        decreases rest@.len(),
    {
        let row = rest.remove(0);
        let ghost before = out@;
        proof {
            assert(row == all[k]);
            assert(rest@ =~= all.skip(k + 1));
            assert(all.take(k + 1).drop_last() =~= all.take(k));
            assert(all.take(k + 1).last() == row);
        }
        if row.identity_version == REPORTED_IDENTITY_VERSION {
            let mut at: usize = 0;
            while at < out.len() && (out[at].invocations > row.invocations || (out[at].invocations
                == row.invocations && text::text_le(&out[at].skill_id, &row.skill_id)))
                invariant
                    at <= out@.len(),
                    out@ == before,
                    goes_first == |a: UsageRow, b: UsageRow| more_used(a, b),
                    order::place(before, row, goes_first, 0) == order::place(
                        before,
                        row,
                        goes_first,
                        at as int,
                    ),
                decreases out@.len() - at,
            {
                at = at + 1;
            }
            out.insert(at, row);
        }
        proof {
            k = k + 1;
        }
    }
    assert(all.take(k) =~= all);
    out
}

/// Usage is reported for every revision of the current identity and for no other, the
/// most used first.
pub proof fn law_usage_is_reported_by_use(rows: Seq<UsageRow>)
    ensures
        reported_usage(rows).to_multiset() == rows.filter(
            |row: UsageRow| row.identity_version == REPORTED_IDENTITY_VERSION,
        ).to_multiset(),
        forall|i: int, j: int|
            0 <= i < j < reported_usage(rows).len() ==> more_used(
                #[trigger] reported_usage(rows)[i],
                #[trigger] reported_usage(rows)[j],
            ),
{
    let keep = |row: UsageRow| row.identity_version == REPORTED_IDENTITY_VERSION;
    let goes_first = |a: UsageRow, b: UsageRow| more_used(a, b);
    let lex = text::lex_order();
    text::lemma_lex_total_ordering();
    assert forall|a: UsageRow, b: UsageRow| #[trigger] goes_first(a, b) || #[trigger] goes_first(
        b,
        a,
    ) by {
        assert(lex(a.skill_id@, b.skill_id@) || lex(b.skill_id@, a.skill_id@));
    }
    assert forall|a: UsageRow, b: UsageRow, c: UsageRow| #[trigger] goes_first(a, b) && #[trigger]
        goes_first(b, c) implies goes_first(a, c) by {
        if lex(a.skill_id@, b.skill_id@) && lex(b.skill_id@, c.skill_id@) {
            assert(lex(a.skill_id@, c.skill_id@));
        }
    }
    order::lemma_arranged(rows, keep, goes_first);
    let all = reported_usage(rows);
    assert forall|i: int, j: int| 0 <= i < j < all.len() implies more_used(
        #[trigger] all[i],
        #[trigger] all[j],
    ) by {
        assert(goes_first(all[i], all[j]));
    }
}

/// Reads usage statistics from the rows of the store.
pub fn load_skill_stats(rows: Vec<UsageRow>) -> (r: Vec<SkillUsageStats>)
    ensures
        r@.len() == reported_usage(rows@).len(),
        forall|i: int| 0 <= i < r@.len() ==> usage_of(reported_usage(rows@)[i], #[trigger] r@[i]),
{
    let mut rest = rank_usage(rows);
    let ghost all = rest@;
    let mut out: Vec<SkillUsageStats> = Vec::new();
    let ghost mut k: int = 0;
    assert(all.skip(0) =~= all);
    while rest.len() > 0
        invariant
            0 <= k <= all.len(),
            rest@ == all.skip(k),
            out@.len() == k,
            forall|i: int| 0 <= i < k ==> usage_of(all[i], #[trigger] out@[i]),
        decreases rest@.len(),
    {
        let row = rest.remove(0);
        proof {
            assert(row == all[k]);
            assert(rest@ =~= all.skip(k + 1));
        }
        let methods = declared_effect_methods(&row.capability_json);
        let successes = count(row.direct_successes);
        let stats = SkillUsageStats {
            skill_id: row.skill_id,
            status: row.status,
            invocations: count(row.invocations),
            direct_successes: successes,
            direct_failures: count(row.direct_failures),
            last_used: row.last_used,
            tasks_with: count(row.tasks_with),
            passed_with: count(row.passed_with),
            baseline_tasks: count(row.baseline_tasks),
            baseline_passes: count(row.baseline_passes),
            gym_tasks: count(row.gym_tasks),
            user_positive: count(row.user_positive),
            user_negative: count(row.user_negative),
            declared_effect_methods: methods,
            estimated_round_trips_saved: estimate_round_trips_saved(successes, methods),
        };
        out.push(stats);
        proof {
            k = k + 1;
        }
    }
    out
}

/// A number in decimal, or a word where there is none.
pub open spec fn number_or(value: Option<i64>, word: Seq<char>) -> Seq<char> {
    match value {
        Some(n) => text::signed_decimal(n as int),
        None => word,
    }
}

impl SkillUsageStats {
    /// The parts of two ratios: the successes of the invocations that ended, and the
    /// passes of the tasks without the skill. `None` where nothing was observed, which
    /// is not the same as nothing passed.
    pub open spec fn success_parts(self) -> Option<(u64, u64)> {
        let ended = if self.direct_successes + self.direct_failures > u64::MAX {
            u64::MAX
        } else {
            (self.direct_successes + self.direct_failures) as u64
        };
        if ended == 0 {
            None
        } else {
            Some((self.direct_successes, ended))
        }
    }

    pub open spec fn baseline_parts(self) -> Option<(u64, u64)> {
        if self.baseline_tasks == 0 {
            None
        } else {
            Some((self.baseline_passes, self.baseline_tasks))
        }
    }

    /// The successes and the invocations that ended, unless none did.
    pub fn success_ratio(&self) -> (r: Option<(u64, u64)>)
        ensures
            r == self.success_parts(),
    {
        let ended: u64 = match self.direct_successes.checked_add(self.direct_failures) {
            Some(n) => n,
            None => u64::MAX,
        };
        if ended == 0 {
            None
        } else {
            Some((self.direct_successes, ended))
        }
    }

    /// The passes and the tasks without the skill, unless there were none.
    pub fn baseline_ratio(&self) -> (r: Option<(u64, u64)>)
        ensures
            r == self.baseline_parts(),
    {
        if self.baseline_tasks == 0 {
            None
        } else {
            Some((self.baseline_passes, self.baseline_tasks))
        }
    }

    /// The cells of a line. The two ratios are given as texts.
    pub open spec fn cells(self, success: Seq<char>, without: Seq<char>) -> Seq<Seq<char>> {
        seq![
            self.skill_id@,
            self.status@,
            text::decimal(self.invocations as nat),
            success,
            number_or(self.last_used, "never"@),
            text::decimal(self.tasks_with as nat),
            text::decimal(self.passed_with as nat),
            without,
            text::decimal(self.gym_tasks as nat),
            text::decimal(self.user_positive as nat),
            text::decimal(self.user_negative as nat),
            text::decimal(self.declared_effect_methods as nat),
            text::decimal(self.estimated_round_trips_saved as nat),
        ]
    }

    /// A line of the table, with the two ratios as texts.
    pub fn to_line(&self, success: &str, without: &str) -> (r: String)
        ensures
            r@ == text::joined(self.cells(success@, without@), "\t"@),
    {
        let mut cells: Vec<String> = Vec::new();
        cells.push(self.skill_id.clone());
        cells.push(self.status.clone());
        cells.push(text::render_u64(self.invocations));
        cells.push(success.to_owned());
        cells.push(
            match self.last_used {
                Some(n) => text::render_i64(n),
                None => "never".to_owned(),
            },
        );
        cells.push(text::render_u64(self.tasks_with));
        cells.push(text::render_u64(self.passed_with));
        cells.push(without.to_owned());
        cells.push(text::render_u64(self.gym_tasks));
        cells.push(text::render_u64(self.user_positive));
        cells.push(text::render_u64(self.user_negative));
        cells.push(text::render_u64(self.declared_effect_methods));
        cells.push(text::render_u64(self.estimated_round_trips_saved));
        assert(text::views(cells@) =~= self.cells(success@, without@));
        text::join(&cells, "\t")
    }
}

/// What rows come to together.
#[verifier::ext_equal]
pub struct UsageTotals {
    pub invocations: nat,
    pub gym_tasks: nat,
    pub user_positive: nat,
    pub user_negative: nat,
    pub round_trips: nat,
}

/// What rows come to together.
pub open spec fn usage_totals(rows: Seq<SkillUsageStats>) -> UsageTotals
    decreases rows.len(),
{
    if rows.len() == 0 {
        UsageTotals {
            invocations: 0,
            gym_tasks: 0,
            user_positive: 0,
            user_negative: 0,
            round_trips: 0,
        }
    } else {
        let before = usage_totals(rows.drop_last());
        let row = rows.last();
        UsageTotals {
            invocations: before.invocations + row.invocations as nat,
            gym_tasks: before.gym_tasks + row.gym_tasks as nat,
            user_positive: before.user_positive + row.user_positive as nat,
            user_negative: before.user_negative + row.user_negative as nat,
            round_trips: before.round_trips + row.estimated_round_trips_saved as nat,
        }
    }
}

impl UsageTotals {
    /// Every total fits.
    pub open spec fn fits(self) -> bool {
        &&& self.invocations <= u64::MAX
        &&& self.gym_tasks <= u64::MAX
        &&& self.user_positive <= u64::MAX
        &&& self.user_negative <= u64::MAX
        &&& self.round_trips <= u64::MAX
    }

    /// The cells of the last line.
    pub open spec fn cells(self) -> Seq<Seq<char>> {
        seq![
            "total"@,
            "-"@,
            text::decimal(self.invocations),
            "-"@,
            "-"@,
            "-"@,
            "-"@,
            "-"@,
            text::decimal(self.gym_tasks),
            text::decimal(self.user_positive),
            text::decimal(self.user_negative),
            "-"@,
            text::decimal(self.round_trips),
        ]
    }
}

proof fn lemma_totals_grow(rows: Seq<SkillUsageStats>, n: int)
    requires
        0 <= n <= rows.len(),
        usage_totals(rows).fits(),
    ensures
        usage_totals(rows.take(n)).fits(),
    decreases rows.len(),
{
    if n < rows.len() {
        lemma_totals_grow(rows.drop_last(), n);
        assert(rows.drop_last().take(n) =~= rows.take(n));
    } else {
        assert(rows.take(n) =~= rows);
    }
}

/// The last line of the table.
pub fn totals_line(rows: &Vec<SkillUsageStats>) -> (r: String)
    requires
        usage_totals(rows@).fits(),
    ensures
        r@ == text::joined(usage_totals(rows@).cells(), "\t"@),
{
    let mut invocations: u64 = 0;
    let mut gym: u64 = 0;
    let mut positive: u64 = 0;
    let mut negative: u64 = 0;
    let mut saved: u64 = 0;
    let mut i: usize = 0;
    assert(rows@.take(0).len() == 0);
    while i < rows.len()
        invariant
            i <= rows@.len(),
            usage_totals(rows@).fits(),
            usage_totals(rows@.take(i as int)) == (UsageTotals {
                invocations: invocations as nat,
                gym_tasks: gym as nat,
                user_positive: positive as nat,
                user_negative: negative as nat,
                round_trips: saved as nat,
            }),
        decreases rows@.len() - i,
    {
        proof {
            assert(rows@.take(i + 1).drop_last() =~= rows@.take(i as int));
            assert(rows@.take(i + 1).last() == rows@[i as int]);
            lemma_totals_grow(rows@, i + 1);
        }
        invocations = invocations + rows[i].invocations;
        gym = gym + rows[i].gym_tasks;
        positive = positive + rows[i].user_positive;
        negative = negative + rows[i].user_negative;
        saved = saved + rows[i].estimated_round_trips_saved;
        i = i + 1;
    }
    assert(rows@.take(rows@.len() as int) =~= rows@);
    let mut cells: Vec<String> = Vec::new();
    cells.push("total".to_owned());
    cells.push("-".to_owned());
    cells.push(text::render_u64(invocations));
    cells.push("-".to_owned());
    cells.push("-".to_owned());
    cells.push("-".to_owned());
    cells.push("-".to_owned());
    cells.push("-".to_owned());
    cells.push(text::render_u64(gym));
    cells.push(text::render_u64(positive));
    cells.push(text::render_u64(negative));
    cells.push("-".to_owned());
    cells.push(text::render_u64(saved));
    assert(text::views(cells@) =~= usage_totals(rows@).cells());
    text::join(&cells, "\t")
}

/// A proposal in the queue of the operator.
#[derive(Debug, Clone, PartialEq, Eq)]
pub struct ProposalQueueRow {
    pub proposal_id: String,
    pub skill_id: String,
    pub status: String,
    pub reason_code: Option<String>,
    pub report_id: Option<String>,
    pub created_at: i64,
    pub updated_at: i64,
}

/// A text, or a hyphen where there is none.
pub open spec fn text_or_hyphen(value: Option<String>) -> Seq<char> {
    match value {
        Some(s) => s@,
        None => "-"@,
    }
}

fn or_hyphen(value: &Option<String>) -> (r: String)
    ensures
        r@ == text_or_hyphen(*value),
{
    match value {
        Some(s) => s.clone(),
        None => "-".to_owned(),
    }
}

/// The statuses in which a proposal still waits for something; a rejected one does not.
pub open spec fn is_open_status(status: Seq<char>) -> bool {
    ||| status == "pending"@
    ||| status == "evaluating"@
    ||| status == "verified"@
    ||| status == "awaiting_approval"@
    ||| status == "approved"@
    ||| status == "deferred"@
}

impl ProposalQueueRow {
    pub open spec fn cells(self) -> Seq<Seq<char>> {
        seq![
            self.proposal_id@,
            self.skill_id@,
            self.status@,
            text_or_hyphen(self.reason_code),
            text_or_hyphen(self.report_id),
            text::signed_decimal(self.created_at as int),
            text::signed_decimal(self.updated_at as int),
        ]
    }

    /// A line of the queue.
    pub fn to_line(&self) -> (r: String)
        ensures
            r@ == text::joined(self.cells(), "\t"@),
    {
        let mut cells: Vec<String> = Vec::new();
        cells.push(self.proposal_id.clone());
        cells.push(self.skill_id.clone());
        cells.push(self.status.clone());
        cells.push(or_hyphen(&self.reason_code));
        cells.push(or_hyphen(&self.report_id));
        cells.push(text::render_i64(self.created_at));
        cells.push(text::render_i64(self.updated_at));
        assert(text::views(cells@) =~= self.cells());
        text::join(&cells, "\t")
    }

    /// A row goes before another: by age, then by id.
    pub open spec fn precedes(self, other: ProposalQueueRow) -> bool {
        self.created_at < other.created_at || (self.created_at == other.created_at && text::lex_le(
            self.proposal_id@,
            other.proposal_id@,
        ))
    }

    /// What one proposal came to, whatever its status.
    pub fn report(&self, revision_status: &Option<String>) -> (r: OperatorReport)
        ensures
            r@ == ReportModel::of("proposal"@).and("id"@, ValueModel::Text(self.skill_id@)).and(
                "proposal_id"@,
                ValueModel::Text(self.proposal_id@),
            ).and("status"@, ValueModel::Text(self.status@)).and(
                "revision_status"@,
                optional_text(text::opt_view(*revision_status)),
            ).and("reason_code"@, optional_text(text::opt_view(self.reason_code))).and(
                "report_id"@,
                optional_text(text::opt_view(self.report_id)),
            ).and("created_at"@, ValueModel::Number(self.created_at)).and(
                "updated_at"@,
                ValueModel::Number(self.updated_at),
            ),
    {
        OperatorReport::new("proposal").with_text("id", &self.skill_id).with_text(
            "proposal_id",
            &self.proposal_id,
        ).with_text("status", &self.status).with_optional(
            "revision_status",
            revision_status,
        ).with_optional("reason_code", &self.reason_code).with_optional(
            "report_id",
            &self.report_id,
        ).with("created_at", ReportValue::Number(self.created_at)).with(
            "updated_at",
            ReportValue::Number(self.updated_at),
        )
    }
}

/// The proposals that still wait for something, the oldest first.
pub open spec fn proposal_queue(rows: Seq<ProposalQueueRow>) -> Seq<ProposalQueueRow> {
    order::arranged(
        rows,
        |row: ProposalQueueRow| is_open_status(row.status@),
        |a: ProposalQueueRow, b: ProposalQueueRow| a.precedes(b),
    )
}

/// Lists the proposals that still wait for something, the oldest first.
pub fn load_proposal_queue(rows: Vec<ProposalQueueRow>) -> (r: Vec<ProposalQueueRow>)
    ensures
        r@ == proposal_queue(rows@),
{
    let ghost keep = |row: ProposalQueueRow| is_open_status(row.status@);
    let ghost goes_first = |a: ProposalQueueRow, b: ProposalQueueRow| a.precedes(b);
    let ghost all = rows@;
    let mut rest = rows;
    let mut out: Vec<ProposalQueueRow> = Vec::new();
    let ghost mut k: int = 0;
    proof {
        assert(all.skip(0) =~= all);
        assert(all.take(0).len() == 0);
        assert(out@ =~= order::arranged(all.take(0), keep, goes_first));
    }
    while rest.len() > 0
        invariant
            0 <= k <= all.len(),
            rest@ == all.skip(k),
            keep == |row: ProposalQueueRow| is_open_status(row.status@),
            goes_first == |a: ProposalQueueRow, b: ProposalQueueRow| a.precedes(b),
            out@ == order::arranged(all.take(k), keep, goes_first),
        decreases rest@.len(),
    {
        let row = rest.remove(0);
        let ghost before = out@;
        proof {
            assert(row == all[k]);
            assert(rest@ =~= all.skip(k + 1));
            assert(all.take(k + 1).drop_last() =~= all.take(k));
            assert(all.take(k + 1).last() == row);
        }
        let waits = text::same(&row.status, "pending") || text::same(&row.status, "evaluating")
            || text::same(&row.status, "verified") || text::same(&row.status, "awaiting_approval")
            || text::same(&row.status, "approved") || text::same(&row.status, "deferred");
        if waits {
            let mut at: usize = 0;
            while at < out.len() && (out[at].created_at < row.created_at || (out[at].created_at
                == row.created_at && text::text_le(&out[at].proposal_id, &row.proposal_id)))
                invariant
                    at <= out@.len(),
                    out@ == before,
                    goes_first == |a: ProposalQueueRow, b: ProposalQueueRow| a.precedes(b),
                    order::place(before, row, goes_first, 0) == order::place(
                        before,
                        row,
                        goes_first,
                        at as int,
                    ),
                decreases out@.len() - at,
            {
                at = at + 1;
            }
            out.insert(at, row);
        }
        proof {
            k = k + 1;
        }
    }
    assert(all.take(k) =~= all);
    out
}

/// The queue holds every proposal that still waits for something and no other, the
/// oldest first.
pub proof fn law_the_queue_holds_what_waits(rows: Seq<ProposalQueueRow>)
    ensures
        proposal_queue(rows).to_multiset() == rows.filter(
            |row: ProposalQueueRow| is_open_status(row.status@),
        ).to_multiset(),
        forall|i: int, j: int|
            0 <= i < j < proposal_queue(rows).len() ==> (#[trigger] proposal_queue(
                rows,
            )[i]).precedes(#[trigger] proposal_queue(rows)[j]),
{
    let keep = |row: ProposalQueueRow| is_open_status(row.status@);
    let goes_first = |a: ProposalQueueRow, b: ProposalQueueRow| a.precedes(b);
    let lex = text::lex_order();
    text::lemma_lex_total_ordering();
    assert forall|a: ProposalQueueRow, b: ProposalQueueRow| #[trigger]
        goes_first(a, b) || #[trigger] goes_first(b, a) by {
        assert(lex(a.proposal_id@, b.proposal_id@) || lex(b.proposal_id@, a.proposal_id@));
    }
    assert forall|a: ProposalQueueRow, b: ProposalQueueRow, c: ProposalQueueRow| #[trigger]
        goes_first(a, b) && #[trigger] goes_first(b, c) implies goes_first(a, c) by {
        if lex(a.proposal_id@, b.proposal_id@) && lex(b.proposal_id@, c.proposal_id@) {
            assert(lex(a.proposal_id@, c.proposal_id@));
        }
    }
    order::lemma_arranged(rows, keep, goes_first);
    let all = proposal_queue(rows);
    assert forall|i: int, j: int| 0 <= i < j < all.len() implies (#[trigger] all[i]).precedes(
        #[trigger] all[j],
    ) by {
        assert(goes_first(all[i], all[j]));
    }
}

/// What a purge would do.
#[derive(Debug, Clone, PartialEq, Eq)]
pub struct PurgePlan {
    /// The status of the revision, if it is still there.
    pub status: Option<String>,
    /// The status is one that nothing leads out of, or the revision is gone.
    pub terminal: bool,
    /// The revisions that would lose their predecessor.
    pub rerooted: Vec<String>,
}

/// What is said of the revisions that a purge would also touch.
pub open spec fn dependants(rerooted: Seq<Seq<char>>) -> Seq<char> {
    if rerooted.len() == 0 {
        Seq::empty()
    } else {
        " (this would also re-root "@ + text::decimal(rerooted.len()) + " dependent revision(s): "@
            + text::joined(rerooted, ","@) + ")"@
    }
}

/// Says which revisions a purge would also touch.
pub fn dependant_suffix(rerooted: &Vec<String>) -> (r: String)
    ensures
        r@ == dependants(text::views(rerooted@)),
{
    assert(text::views(rerooted@).len() == rerooted@.len());
    if rerooted.len() == 0 {
        let r = String::new();
        assert(r@ =~= Seq::empty());
        return r;
    }
    let number = text::render_u64(rerooted.len() as u64);
    let list = text::join(rerooted, ",");
    let mut out = text::join3(
        " (this would also re-root ",
        &number,
        " dependent revision(s): ",
    );
    out.append(&list);
    out.append(")");
    out
}

/// Why a purge is refused.
pub open spec fn purge_refusal(
    skill_id: Seq<char>,
    plan: PurgePlan,
    force: bool,
) -> Option<Seq<char>> {
    let rerooted = text::views(plan.rerooted@);
    if force || (plan.terminal && rerooted.len() == 0) {
        None
    } else if !plan.terminal {
        Some(
            "learned skill "@ + skill_id + " is "@ + match plan.status {
                Some(s) => s@,
                None => "absent"@,
            }
                + " and is not in a terminal lifecycle status; re-run with --purge-learned-skill-force to delete it"@
                + dependants(rerooted),
        )
    } else {
        Some(
            "purging learned skill "@ + skill_id + " would re-root "@ + text::decimal(
                rerooted.len(),
            ) + " dependent revision(s) ("@ + text::joined(rerooted, ","@)
                + "); re-run with --purge-learned-skill-force to accept that"@,
        )
    }
}

/// Decides whether a revision may be purged: one that is not at its end, or that others
/// build on, only by force.
pub fn purge_skill(skill_id: &str, plan: &PurgePlan, force: bool) -> (r: Result<(), String>)
    ensures
        match purge_refusal(skill_id@, *plan, force) {
            None => r is Ok,
            Some(s) => r is Err && r->Err_0@ == s,
        },
{
    assert(text::views(plan.rerooted@).len() == plan.rerooted@.len());
    if force || (plan.terminal && plan.rerooted.len() == 0) {
        return Ok(());
    }
    if !plan.terminal {
        let status = match &plan.status {
            Some(s) => s.clone(),
            None => "absent".to_owned(),
        };
        let suffix = dependant_suffix(&plan.rerooted);
        let mut out = text::join3("learned skill ", skill_id, " is ");
        out.append(&status);
        out.append(
            " and is not in a terminal lifecycle status; re-run with --purge-learned-skill-force to delete it",
        );
        out.append(&suffix);
        return Err(out);
    }
    let number = text::render_u64(plan.rerooted.len() as u64);
    let list = text::join(&plan.rerooted, ",");
    let mut out = text::join3("purging learned skill ", skill_id, " would re-root ");
    out.append(&number);
    out.append(" dependent revision(s) (");
    out.append(&list);
    out.append("); re-run with --purge-learned-skill-force to accept that");
    Err(out)
}

/// The report of a purge. Of what was already gone, nothing was purged again.
pub fn purge_report(skill_id: &str, plan: &PurgePlan, generation: u64, removal_only: bool) -> (r:
    OperatorReport)
    ensures
        r@ == ReportModel::of("purge"@).and("id"@, ValueModel::Text(skill_id@)).and(
            "status"@,
            ValueModel::Text("purged"@),
        ).and("previous_status"@, optional_text(text::opt_view(plan.status))).and(
            "generation"@,
            ValueModel::Count(generation),
        ).and("removal_only"@, ValueModel::Flag(removal_only)).and(
            "idempotent"@,
            ValueModel::Flag(plan.status is None),
        ).and("rerooted"@, ValueModel::List(text::views(plan.rerooted@))),
{
    OperatorReport::new("purge").with_text("id", skill_id).with_text(
        "status",
        "purged",
    ).with_optional("previous_status", &plan.status).with(
        "generation",
        ReportValue::Count(generation),
    ).with("removal_only", ReportValue::Flag(removal_only)).with(
        "idempotent",
        ReportValue::Flag(plan.status.is_none()),
    ).with("rerooted", ReportValue::List(text::clone_strings(&plan.rerooted)))
}

/// Nothing that others build on, or that is not at its end, is purged without force.
pub proof fn law_purges_need_force(skill_id: Seq<char>, plan: PurgePlan)
    ensures
        purge_refusal(skill_id, plan, false) is None <==> plan.terminal && plan.rerooted@.len()
            == 0,
        purge_refusal(skill_id, plan, true) is None,
{
}

/// What is said where a proposal cannot be evaluated again.
pub open spec fn reevaluation_refusal(proposal: ProposalRecord) -> Seq<char> {
    "learned-skill re-evaluation requires a proposal awaiting approval or parked as verified with held_out_suite_required or as deferred; proposal "@
        + proposal.proposal_id@ + " is "@ + proposal.status.token() + match proposal.reason_code {
        Some(code) => " ("@ + code@ + ")"@,
        None => Seq::empty(),
    }
}

/// Says why a proposal cannot be evaluated again.
pub fn refuse_reevaluation(proposal: &ProposalRecord) -> (r: String)
    ensures
        r@ == reevaluation_refusal(*proposal),
{
    let mut out = text::join3(
        "learned-skill re-evaluation requires a proposal awaiting approval or parked as verified with held_out_suite_required or as deferred; proposal ",
        &proposal.proposal_id,
        " is ",
    );
    out.append(admission::proposal_status(proposal.status));
    match &proposal.reason_code {
        Some(code) => {
            let ghost before = out@;
            let reason = text::join3(" (", code, ")");
            out.append(&reason);
        },
        None => {
            assert(out@ + Seq::<char>::empty() =~= out@);
        },
    }
    out
}

/// The report of a proposal that was queued again.
pub fn reevaluation_report(proposal: &ProposalRecord) -> (r: OperatorReport)
    ensures
        r@ == ReportModel::of("reevaluate"@).and("id"@, ValueModel::Text(proposal.skill_id@)).and(
            "proposal_id"@,
            ValueModel::Text(proposal.proposal_id@),
        ).and("previous_status"@, ValueModel::Text(proposal.status.token())).and(
            "previous_reason"@,
            ValueModel::Text(text_or_hyphen(proposal.reason_code)),
        ).and("status"@, ValueModel::Text("pending"@)),
{
    let reason = or_hyphen(&proposal.reason_code);
    OperatorReport::new("reevaluate").with_text("id", &proposal.skill_id).with_text(
        "proposal_id",
        &proposal.proposal_id,
    ).with_text("previous_status", admission::proposal_status(proposal.status)).with_text(
        "previous_reason",
        &reason,
    ).with_text("status", "pending")
}

/// How an installation of bundled packages is going.
#[derive(Debug, Clone, PartialEq, Eq)]
pub struct SeedTally {
    pub imported: usize,
    pub failed: usize,
    pub first_error: Option<String>,
}

impl SeedTally {
    /// The tally with one more package.
    pub open spec fn and(self, outcome: Result<(), String>) -> SeedTally {
        match outcome {
            Ok(()) => SeedTally { imported: (self.imported + 1) as usize, ..self },
            Err(e) => SeedTally {
                failed: (self.failed + 1) as usize,
                first_error: match self.first_error {
                    Some(first) => Some(first),
                    None => Some(e),
                },
                ..self
            },
        }
    }

    /// The tally of packages that were tried one after the other.
    pub open spec fn of(outcomes: Seq<Result<(), String>>) -> SeedTally
        decreases outcomes.len(),
    {
        if outcomes.len() == 0 {
            SeedTally { imported: 0, failed: 0, first_error: None }
        } else {
            SeedTally::of(outcomes.drop_last()).and(outcomes.last())
        }
    }

    /// Nothing was tried yet.
    pub fn new() -> (r: SeedTally)
        ensures
            r == (SeedTally { imported: 0, failed: 0, first_error: None }),
    {
        SeedTally { imported: 0, failed: 0, first_error: None }
    }

    /// Counts one package. A failure does not stop the others; the first is remembered.
    pub fn record(&mut self, outcome: Result<(), String>)
        requires
            old(self).imported < usize::MAX,
            old(self).failed < usize::MAX,
        ensures
            *final(self) == old(self).and(outcome),
    {
        match outcome {
            Ok(()) => {
                self.imported = self.imported + 1;
            },
            Err(e) => {
                self.failed = self.failed + 1;
                if self.first_error.is_none() {
                    self.first_error = Some(e);
                }
            },
        }
    }

    /// The report of the installation.
    pub fn report(&self) -> (r: OperatorReport)
        ensures
            r@ == ReportModel::of("install-seeds"@).and(
                "imported"@,
                ValueModel::Count(self.imported as u64),
            ).and("failed"@, ValueModel::Count(self.failed as u64)),
    {
        OperatorReport::new("install-seeds").with(
            "imported",
            ReportValue::Count(self.imported as u64),
        ).with("failed", ReportValue::Count(self.failed as u64))
    }

    /// The installation fails only where no package came through.
    pub fn conclude(&self) -> (r: Result<(), String>)
        ensures
            if self.imported == 0 {
                r is Err && r->Err_0@
                    == "no bundled learned-skill seed reached an importable state ("@
                    + text::decimal(self.failed as nat) + " failed); first failure: "@
                    + match self.first_error {
                    Some(e) => e@,
                    None => "unknown"@,
                }
            } else {
                r is Ok
            },
    {
        if self.imported > 0 {
            return Ok(());
        }
        let failed = text::render_u64(self.failed as u64);
        let first = match &self.first_error {
            Some(e) => e.clone(),
            None => "unknown".to_owned(),
        };
        let mut out = text::join3(
            "no bundled learned-skill seed reached an importable state (",
            &failed,
            " failed); first failure: ",
        );
        out.append(&first);
        Err(out)
    }
}

/// Every bundled package is counted, whatever became of the ones before it: an
/// installation comes through exactly where one of them did, and else it names the first
/// failure.
pub proof fn law_one_seed_is_enough(outcomes: Seq<Result<(), String>>)
    requires
        outcomes.len() <= usize::MAX,
    ensures
        ({
            let tally = SeedTally::of(outcomes);
            &&& tally.imported + tally.failed == outcomes.len()
            &&& tally.imported > 0 <==> exists|i: int|
                0 <= i < outcomes.len() && (#[trigger] outcomes[i]) is Ok
            &&& tally.imported == 0 && outcomes.len() > 0 ==> tally.first_error == Some(
                outcomes[0]->Err_0,
            )
        }),
    decreases outcomes.len(),
{
    if outcomes.len() > 0 {
        let init = outcomes.drop_last();
        law_one_seed_is_enough(init);
        if exists|i: int| 0 <= i < init.len() && (#[trigger] init[i]) is Ok {
            let i = choose|i: int| 0 <= i < init.len() && (#[trigger] init[i]) is Ok;
            assert(outcomes[i] is Ok);
        }
        assert(outcomes[outcomes.len() - 1] == outcomes.last());
        assert forall|i: int| 0 <= i < init.len() implies init[i] == #[trigger] outcomes[i] by {
        }
        if init.len() > 0 {
            assert(init[0] == outcomes[0]);
        }
    }
}

/// What retiring a revision comes to.
#[derive(Debug, Clone, PartialEq, Eq)]
pub enum RetireDecision {
    /// It is retired already.
    Already,
    /// It is active and can be retired.
    Retire,
    /// It cannot be retired, for the reason given.
    Refuse(String),
}

/// Decides what retiring a revision with a status comes to.
pub fn retire_skill(skill_id: &str, status: &Option<String>) -> (r: RetireDecision)
    ensures
        match status {
            None => r is Refuse && r->Refuse_0@ == "learned-skill revision not found"@,
            Some(s) => if s@ == "retired"@ {
                r is Already
            } else if s@ == "active"@ {
                r is Retire
            } else {
                r is Refuse && r->Refuse_0@
                    == "learned-skill retirement requires an active revision; revision "@
                    + skill_id@ + " is "@ + s@
            },
        },
{
    let status = match status {
        None => {
            return RetireDecision::Refuse("learned-skill revision not found".to_owned());
        },
        Some(s) => s,
    };
    if text::same(status, "retired") {
        return RetireDecision::Already;
    }
    if text::same(status, "active") {
        return RetireDecision::Retire;
    }
    let mut out = text::join3(
        "learned-skill retirement requires an active revision; revision ",
        skill_id,
        " is ",
    );
    out.append(status);
    RetireDecision::Refuse(out)
}

/// A thing in a directory.
#[derive(Debug, Clone, PartialEq, Eq)]
pub struct DirectoryEntry {
    pub name: String,
    /// It is a regular file.
    pub regular: bool,
}

/// How many packages a directory may hold.
pub const MAX_DIRECTORY_PACKAGES: usize = 32;

/// How large a package may be, in bytes.
pub const MAX_PACKAGE_BYTES: u64 = 262_144;

/// A name ends as packages do, and is more than its ending.
pub open spec fn names_package(name: Seq<char>) -> bool {
    name.len() > 5 && text::occurs_at(name, ".json"@, name.len() - 5)
}

/// The names of the packages in a directory.
pub open spec fn package_names(entries: Seq<DirectoryEntry>) -> Seq<Seq<char>>
    decreases entries.len(),
{
    if entries.len() == 0 {
        Seq::empty()
    } else {
        let before = package_names(entries.drop_last());
        if entries.last().regular && names_package(entries.last().name@) {
            before.push(entries.last().name@)
        } else {
            before
        }
    }
}

fn is_package(name: &str) -> (r: bool)
    ensures
        r == names_package(name@),
{
    let chars = text::chars_of(name);
    let ending = text::chars_of(".json");
    proof {
        reveal_strlit(".json");
    }
    chars.len() > 5 && text::stands_at(&chars, &ending, chars.len() - 5)
}

/// Picks the packages of a directory, in the order of their names. There must be some,
/// and not too many.
pub fn directory_packages(entries: &Vec<DirectoryEntry>) -> (r: Result<Vec<String>, &'static str>)
    ensures
        ({
            let names = package_names(entries@);
            if 1 <= names.len() <= MAX_DIRECTORY_PACKAGES {
                r is Ok && text::views(r->Ok_0@) == text::sorted_texts(names)
            } else {
                r is Err && r->Err_0@
                    == "learned-skill directory must contain 1 to 32 regular JSON files"@
            }
        }),
{
    let mut names: Vec<String> = Vec::new();
    let mut i: usize = 0;
    proof {
        assert(entries@.take(0).len() == 0);
        assert(text::views(names@) =~= Seq::empty());
    }
    while i < entries.len()
        invariant
            i <= entries@.len(),
            text::views(names@) == package_names(entries@.take(i as int)),
        decreases entries@.len() - i,
    {
        let ghost before = text::views(names@);
        proof {
            assert(entries@.take(i + 1).drop_last() =~= entries@.take(i as int));
            assert(entries@.take(i + 1).last() == entries@[i as int]);
        }
        if entries[i].regular && is_package(&entries[i].name) {
            let name = entries[i].name.clone();
            names.push(name);
            assert(text::views(names@) =~= before.push(name@));
        }
        i = i + 1;
    }
    assert(entries@.take(entries@.len() as int) =~= entries@);
    assert(text::views(names@).len() == names@.len());
    if names.len() == 0 || names.len() > MAX_DIRECTORY_PACKAGES {
        return Err("learned-skill directory must contain 1 to 32 regular JSON files");
    }
    Ok(text::sort_strings(names))
}

/// Why a command was refused.
#[derive(Debug)]
pub enum OperationError {
    /// For the reason given.
    Refused(String),
    /// A held-out suite of the package is invalid.
    Baseline(HeldOutError),
    /// The lifecycle refused it.
    Lifecycle(LifecycleError),
}

/// The contents of an [`OperationError`].
#[verifier::ext_equal]
pub enum OperationFault {
    Refused(Seq<char>),
    Baseline(HeldOutFault),
    Lifecycle(LifecycleFault),
}

impl View for OperationError {
    type V = OperationFault;

    open spec fn view(&self) -> OperationFault {
        match *self {
            OperationError::Refused(s) => OperationFault::Refused(s@),
            OperationError::Baseline(e) => OperationFault::Baseline(e@),
            OperationError::Lifecycle(e) => OperationFault::Lifecycle(e@),
        }
    }
}

/// The first invalid suite of a package, from position `i` on.
pub open spec fn suites_fault_from(suites: Seq<HeldOutSuiteDraft>, i: int) -> Option<OperationFault>
    decreases suites.len() - i,
{
    if i < 0 || i >= suites.len() {
        None
    } else if held_out::suite_fault(suites[i]) is Some {
        Some(
            OperationFault::Baseline(
                HeldOutFault::InvalidSuite(held_out::suite_fault(suites[i])->0),
            ),
        )
    } else {
        suites_fault_from(suites, i + 1)
    }
}

/// What is wrong with the suites of a package.
pub open spec fn package_fault(
    suites: Seq<HeldOutSuiteDraft>,
    label: Seq<char>,
) -> Option<OperationFault> {
    if suites.len() == 0 {
        Some(
            OperationFault::Refused(
                "learned-skill package "@ + label + " requires at least one held-out suite"@,
            ),
        )
    } else {
        suites_fault_from(suites, 0)
    }
}

/// Checks the suites of a package: there is one, and each is valid.
pub fn validate_package(suites: &Vec<HeldOutSuiteDraft>, label: &str) -> (r: Result<
    (),
    OperationError,
>)
    ensures
        match package_fault(suites@, label@) {
            None => r is Ok,
            Some(f) => r is Err && r->Err_0@ == f,
        },
{
    if suites.len() == 0 {
        return Err(
            OperationError::Refused(
                text::join3(
                    "learned-skill package ",
                    label,
                    " requires at least one held-out suite",
                ),
            ),
        );
    }
    let mut i: usize = 0;
    while i < suites.len()
        invariant
            i <= suites@.len(),
            package_fault(suites@, label@) == suites_fault_from(suites@, i as int),
        decreases suites@.len() - i,
    {
        match suites[i].validate() {
            Ok(()) => {},
            Err(e) => {
                return Err(OperationError::Baseline(e));
            },
        }
        i = i + 1;
    }
    Ok(())
}

/// What the store knows of a skill that is to be proposed.
pub struct EnqueueAnswers {
    /// The skill was purged.
    pub tombstoned: bool,
    /// The status of the predecessor, if it is there.
    pub predecessor_status: Option<String>,
    /// The stored artifact with the same id.
    pub existing: Option<SkillArtifact>,
    /// The stored proposal with the same id.
    pub proposal: Option<ProposalRecord>,
}

/// A text, or `none`.
pub open spec fn named(value: Option<Seq<char>>) -> Seq<char> {
    match value {
        Some(s) => s,
        None => "none"@,
    }
}

/// A status that a predecessor may have.
pub open spec fn replaceable(status: Seq<char>) -> bool {
    status == "active"@ || status == "canary"@ || status == "quarantined"@
}

/// Why the predecessor cannot be replaced.
pub open spec fn predecessor_refusal(
    predecessor: Seq<char>,
    status: Option<String>,
) -> Option<Seq<char>> {
    match status {
        Some(s) => if replaceable(s@) {
            None
        } else {
            Some(
                "learned-skill predecessor "@ + predecessor + " is "@ + s@
                    + "; a replacement requires an active, canary, or quarantined immutable revision"@,
            )
        },
        None => Some(
            "learned-skill predecessor "@ + predecessor
                + " is absent from the store; import the predecessor before its replacement"@,
        ),
    }
}

/// Why a proposal could not be enqueued.
pub open spec fn enqueue_refusal(
    artifact: SkillArtifact,
    predecessor: Option<Seq<char>>,
    answers: EnqueueAnswers,
) -> Option<Seq<char>> {
    if answers.tombstoned {
        Some(
            "learned skill "@ + artifact.id@ + " was privacy-purged and cannot be re-proposed"@,
        )
    } else if predecessor is Some && predecessor_refusal(
        predecessor->0,
        answers.predecessor_status,
    ) is Some {
        predecessor_refusal(predecessor->0, answers.predecessor_status)
    } else if answers.existing is Some && answers.existing->0@ != artifact@ {
        Some("identity collision for learned skill "@ + artifact.id@)
    } else {
        match answers.proposal {
            Some(record) => if text::opt_view(record.predecessor_id) != predecessor {
                Some(
                    "learned skill "@ + artifact.id@ + " is already proposed against predecessor "@
                        + named(text::opt_view(record.predecessor_id))
                        + "; an existing proposal cannot be rebound to "@ + named(predecessor),
                )
            } else {
                None
            },
            None => None,
        }
    }
}

fn or_none(value: &Option<String>) -> (r: String)
    ensures
        r@ == named(text::opt_view(*value)),
{
    match value {
        Some(s) => s.clone(),
        None => "none".to_owned(),
    }
}

fn check_predecessor(predecessor: &str, status: &Option<String>) -> (r: Result<(), String>)
    ensures
        match predecessor_refusal(predecessor@, *status) {
            None => r is Ok,
            Some(s) => r is Err && r->Err_0@ == s,
        },
{
    match status {
        Some(s) => {
            if text::same(s, "active") || text::same(s, "canary") || text::same(s, "quarantined") {
                return Ok(());
            }
            let mut out = text::join3("learned-skill predecessor ", predecessor, " is ");
            out.append(s);
            out.append(
                "; a replacement requires an active, canary, or quarantined immutable revision",
            );
            Err(out)
        },
        None => Err(
            text::join3(
                "learned-skill predecessor ",
                predecessor,
                " is absent from the store; import the predecessor before its replacement",
            ),
        ),
    }
}

/// Refuses a proposal that could not be enqueued, before anything of its package is
/// stored.
pub fn preflight_enqueue(
    artifact: &SkillArtifact,
    predecessor_id: &Option<String>,
    answers: &EnqueueAnswers,
) -> (r: Result<(), String>)
    ensures
        match enqueue_refusal(*artifact, text::opt_view(*predecessor_id), *answers) {
            None => r is Ok,
            Some(s) => r is Err && r->Err_0@ == s,
        },
{
    if answers.tombstoned {
        return Err(
            text::join3(
                "learned skill ",
                &artifact.id,
                " was privacy-purged and cannot be re-proposed",
            ),
        );
    }
    if let Some(predecessor) = predecessor_id {
        match check_predecessor(predecessor, &answers.predecessor_status) {
            Ok(()) => {},
            Err(e) => {
                return Err(e);
            },
        }
    }
    if let Some(existing) = &answers.existing {
        if !existing.same(artifact) {
            return Err(text::join2("identity collision for learned skill ", &artifact.id));
        }
    }
    if let Some(record) = &answers.proposal {
        if !text::same_opt(&record.predecessor_id, predecessor_id) {
            let bound = or_none(&record.predecessor_id);
            let wanted = or_none(predecessor_id);
            let mut out = text::join3(
                "learned skill ",
                &artifact.id,
                " is already proposed against predecessor ",
            );
            out.append(&bound);
            out.append("; an existing proposal cannot be rebound to ");
            out.append(&wanted);
            return Err(out);
        }
    }
    Ok(())
}

/// How long an import waits for its evaluation, in nanoseconds.
pub const IMPORT_EVALUATION_BUDGET: u64 = 120_000_000_000;

/// How long an import waits between two looks, in nanoseconds.
pub const IMPORT_POLL_INTERVAL: u64 = 50_000_000;

/// How long an import sleeps at most, in nanoseconds.
pub const IMPORT_MAX_SLEEP: u64 = 2_000_000_000;

/// How long an import waits for a proposal ahead of its own, in nanoseconds.
pub const FOREIGN_HEAD_GRACE: u64 = 2_000_000_000;

/// A proposal as the queue of due evaluations sees it.
#[derive(Debug, Clone, PartialEq, Eq)]
pub struct DueRow {
    pub proposal_id: String,
    pub status: String,
    pub attempt_count: u32,
    pub next_attempt_at: Option<i64>,
    pub lease_expires_at: Option<i64>,
    pub proposed_at: i64,
}

/// An evaluation is due: the proposal waits and its time has come, or the claim on it
/// has run out.
pub open spec fn is_due(row: DueRow, max_attempts: u32, now: i64) -> bool {
    &&& row.attempt_count < max_attempts
    &&& {
        ||| row.status@ == "pending"@ && (row.next_attempt_at is None || row.next_attempt_at->0
            <= now)
        ||| row.status@ == "evaluating"@ && row.lease_expires_at is Some
            && row.lease_expires_at->0 <= now
    }
}

/// A row goes before another: by when it was proposed, then by id.
pub open spec fn due_before(a: DueRow, b: DueRow) -> bool {
    a.proposed_at < b.proposed_at || (a.proposed_at == b.proposed_at && a.proposal_id@
        != b.proposal_id@ && text::lex_le(a.proposal_id@, b.proposal_id@))
}

/// The position of the row that is due first, among the first `n`.
pub open spec fn due_position(rows: Seq<DueRow>, max_attempts: u32, now: i64, n: nat) -> Option<int>
    decreases n,
{
    if n == 0 {
        None
    } else {
        let row = rows[n - 1];
        match due_position(rows, max_attempts, now, (n - 1) as nat) {
            None => if is_due(row, max_attempts, now) {
                Some(n - 1)
            } else {
                None
            },
            Some(k) => if is_due(row, max_attempts, now) && due_before(row, rows[k]) {
                Some(n - 1)
            } else {
                Some(k)
            },
        }
    }
}

/// Finds the proposal that the next evaluation would claim.
pub fn due_proposal_head(rows: &Vec<DueRow>, max_attempts: u32, now: i64) -> (r: Option<String>)
    ensures
        match due_position(rows@, max_attempts, now, rows@.len()) {
            None => r is None,
            Some(k) => r is Some && r->0@ == rows@[k].proposal_id@,
        },
{
    let mut best: Option<usize> = None;
    let mut i: usize = 0;
    while i < rows.len()
        invariant
            i <= rows@.len(),
            match due_position(rows@, max_attempts, now, i as nat) {
                None => best is None,
                Some(k) => best is Some && best->0 == k && k < i,
            },
        decreases rows@.len() - i,
    {
        let row = &rows[i];
        let waits = text::same(&row.status, "pending") && match row.next_attempt_at {
            None => true,
            Some(due) => due <= now,
        };
        let lapsed = text::same(&row.status, "evaluating") && match row.lease_expires_at {
            None => false,
            Some(end) => end <= now,
        };
        if row.attempt_count < max_attempts && (waits || lapsed) {
            match best {
                None => {
                    best = Some(i);
                },
                Some(k) => {
                    let other = &rows[k];
                    if row.proposed_at < other.proposed_at || (row.proposed_at == other.proposed_at
                        && !text::same(&row.proposal_id, &other.proposal_id) && text::text_le(
                        &row.proposal_id,
                        &other.proposal_id,
                    )) {
                        best = Some(i);
                    }
                },
            }
        }
        i = i + 1;
    }
    match best {
        None => None,
        Some(k) => Some(rows[k].proposal_id.clone()),
    }
}

/// What an imported package has reached.
#[derive(Debug, Clone, PartialEq, Eq)]
pub struct ImportReport {
    pub skill_id: String,
    pub proposal_id: String,
    pub status: ProposalStatus,
    pub reason_code: Option<String>,
    pub report_id: Option<String>,
    /// The proposal was there before, in this very form.
    pub idempotent: bool,
    /// When the proposal is evaluated next, if it is queued.
    pub next_attempt_at: Option<i64>,
    /// The proposal that is ahead of it, if that is why nothing was evaluated.
    pub blocked_by: Option<String>,
}

/// The contents of an [`ImportReport`].
#[verifier::ext_equal]
pub struct ImportModel {
    pub skill_id: Seq<char>,
    pub proposal_id: Seq<char>,
    pub status: ProposalStatus,
    pub reason_code: Option<Seq<char>>,
    pub report_id: Option<Seq<char>>,
    pub idempotent: bool,
    pub next_attempt_at: Option<i64>,
    pub blocked_by: Option<Seq<char>>,
}

impl View for ImportReport {
    type V = ImportModel;

    open spec fn view(&self) -> ImportModel {
        ImportModel {
            skill_id: self.skill_id@,
            proposal_id: self.proposal_id@,
            status: self.status,
            reason_code: text::opt_view(self.reason_code),
            report_id: text::opt_view(self.report_id),
            idempotent: self.idempotent,
            next_attempt_at: self.next_attempt_at,
            blocked_by: text::opt_view(self.blocked_by),
        }
    }
}

impl ImportModel {
    /// The fields of the report.
    pub open spec fn report(self, command: Seq<char>) -> ReportModel {
        ReportModel::of(command).and("id"@, ValueModel::Text(self.skill_id)).and(
            "proposal_id"@,
            ValueModel::Text(self.proposal_id),
        ).and("status"@, ValueModel::Text(self.status.token())).and(
            "reason_code"@,
            optional_text(self.reason_code),
        ).and("report_id"@, optional_text(self.report_id)).and(
            "idempotent"@,
            ValueModel::Flag(self.idempotent),
        ).and("next_attempt_at"@, optional_number(self.next_attempt_at)).and(
            "blocked_by"@,
            optional_text(self.blocked_by),
        )
    }
}

impl ImportReport {
    /// The fields of the report.
    pub fn into_operator_report(&self, command: &str) -> (r: OperatorReport)
        ensures
            r@ == self@.report(command@),
    {
        OperatorReport::new(command).with_text("id", &self.skill_id).with_text(
            "proposal_id",
            &self.proposal_id,
        ).with_text("status", admission::proposal_status(self.status)).with_optional(
            "reason_code",
            &self.reason_code,
        ).with_optional("report_id", &self.report_id).with(
            "idempotent",
            ReportValue::Flag(self.idempotent),
        ).with("next_attempt_at", number_or_absent(self.next_attempt_at)).with_optional(
            "blocked_by",
            &self.blocked_by,
        )
    }
}

/// What a proposal has reached.
pub open spec fn reached(current: ProposalRecord, already_present: bool) -> ImportModel {
    ImportModel {
        skill_id: current.skill_id@,
        proposal_id: current.proposal_id@,
        status: current.status,
        reason_code: text::opt_view(current.reason_code),
        report_id: text::opt_view(current.report_id),
        idempotent: already_present,
        next_attempt_at: current.next_attempt_at,
        blocked_by: None,
    }
}

/// Reports what a proposal has reached.
pub fn import_report(current: &ProposalRecord, already_present: bool) -> (r: ImportReport)
    ensures
        r@ == reached(*current, already_present),
{
    ImportReport {
        skill_id: current.skill_id.clone(),
        proposal_id: current.proposal_id.clone(),
        status: current.status,
        reason_code: text::clone_opt(&current.reason_code),
        report_id: text::clone_opt(&current.report_id),
        idempotent: already_present,
        next_attempt_at: current.next_attempt_at,
        blocked_by: None,
    }
}

/// What is reported of a proposal that is queued for later.
pub open spec fn scheduled(
    current: ProposalRecord,
    already_present: bool,
    now: i64,
    blocked_by: Option<Seq<char>>,
) -> ImportModel {
    ImportModel {
        next_attempt_at: match current.next_attempt_at {
            Some(due) => Some(due),
            None => Some(now),
        },
        blocked_by,
        ..reached(current, already_present)
    }
}

/// Reports a proposal that is queued for later. That is no failure: a worker picks it
/// up.
pub fn scheduled_report(
    current: &ProposalRecord,
    already_present: bool,
    now: i64,
    blocked_by: Option<String>,
) -> (r: ImportReport)
    ensures
        r@ == scheduled(*current, already_present, now, text::opt_view(blocked_by)),
{
    let mut report = import_report(current, already_present);
    if report.next_attempt_at.is_none() {
        report.next_attempt_at = Some(now);
    }
    report.blocked_by = blocked_by;
    report
}

/// How long to sleep until a proposal is due: its own time, or the short interval where
/// there is none, within bounds, and never past the end of the wait.
pub open spec fn sleep_for(next_attempt_at: Option<i64>, now: i64, remaining: u64) -> u64 {
    let wait = match next_attempt_at {
        Some(due) => {
            let seconds = due - now;
            if seconds * 1_000_000_000 <= IMPORT_POLL_INTERVAL {
                IMPORT_POLL_INTERVAL as int
            } else if seconds * 1_000_000_000 >= IMPORT_MAX_SLEEP {
                IMPORT_MAX_SLEEP as int
            } else {
                seconds * 1_000_000_000
            }
        },
        None => IMPORT_POLL_INTERVAL as int,
    };
    if wait < remaining {
        wait as u64
    } else {
        remaining
    }
}

/// How long to sleep until a proposal is due, in nanoseconds; `remaining` is what is
/// left of the wait.
pub fn sleep_until_due(next_attempt_at: Option<i64>, now: i64, remaining: u64) -> (r: u64)
    ensures
        r == sleep_for(next_attempt_at, now, remaining),
{
    let wait: u64 = match next_attempt_at {
        None => IMPORT_POLL_INTERVAL,
        Some(due) => {
            if due <= now {
                IMPORT_POLL_INTERVAL
            } else if now < 0 && due >= 0 {
                if due >= 2 || now <= -2 || due - now >= 2 {
                    IMPORT_MAX_SLEEP
                } else {
                    1_000_000_000
                }
            } else if due - now >= 2 {
                IMPORT_MAX_SLEEP
            } else {
                1_000_000_000
            }
        },
    };
    if wait < remaining {
        wait
    } else {
        remaining
    }
}

/// An import never sleeps past its budget, and never longer than the longest sleep.
pub proof fn law_sleeps_stay_within_the_budget(
    next_attempt_at: Option<i64>,
    now: i64,
    remaining: u64,
)
    ensures
        sleep_for(next_attempt_at, now, remaining) <= remaining,
        sleep_for(next_attempt_at, now, remaining) <= IMPORT_MAX_SLEEP,
{
}

/// An import that waits for its evaluation. Times are in nanoseconds on one clock.
#[derive(Debug, Clone, PartialEq, Eq)]
pub struct ImportWait {
    pub proposal_id: String,
    pub already_present: bool,
    pub deadline: u64,
    pub infrastructure_attempts: u32,
    pub blocked_since: Option<u64>,
}

/// What an import does next.
#[derive(Debug, Clone, PartialEq, Eq)]
pub enum ImportAction {
    /// It ends with a report.
    Report(ImportReport),
    /// It fails, for the reason given.
    Refuse(String),
    /// It sleeps for so many nanoseconds and looks again.
    Sleep(u64),
    /// It has its own proposal evaluated.
    Evaluate,
    /// It looks again at once.
    Continue,
}

/// The contents of an [`ImportAction`].
#[verifier::ext_equal]
pub enum ImportStep {
    Report(ImportModel),
    Refuse(Seq<char>),
    Sleep(u64),
    Evaluate,
    Continue,
}

impl View for ImportAction {
    type V = ImportStep;

    open spec fn view(&self) -> ImportStep {
        match *self {
            ImportAction::Report(report) => ImportStep::Report(report@),
            ImportAction::Refuse(s) => ImportStep::Refuse(s@),
            ImportAction::Sleep(n) => ImportStep::Sleep(n),
            ImportAction::Evaluate => ImportStep::Evaluate,
            ImportAction::Continue => ImportStep::Continue,
        }
    }
}

/// A reason behind its label, or nothing.
pub open spec fn reason_suffix(reason: Option<String>) -> Seq<char> {
    match reason {
        Some(s) => " reason="@ + s@,
        None => Seq::empty(),
    }
}

fn append_reason(out: &mut String, reason: &Option<String>)
    ensures
        final(out)@ == old(out)@ + reason_suffix(*reason),
{
    let ghost before = out@;
    match reason {
        Some(s) => {
            out.append(" reason=");
            out.append(s);
            assert(out@ =~= before + (" reason="@ + s@));
        },
        None => {
            assert(out@ =~= before + Seq::<char>::empty());
        },
    }
}

/// What is left of a wait.
pub open spec fn left(deadline: u64, clock: u64) -> u64 {
    if clock >= deadline {
        0
    } else {
        (deadline - clock) as u64
    }
}

/// How long another proposal has been ahead.
pub open spec fn blocked_for(since: Option<u64>, clock: u64) -> int {
    match since {
        Some(start) => if clock >= start {
            clock - start
        } else {
            0
        },
        None => 0,
    }
}

impl ImportWait {
    /// What the state of the proposal alone decides.
    pub open spec fn settled(self, current: ProposalRecord) -> Option<ImportStep> {
        match current.status {
            ProposalStatus::AwaitingApproval => Some(
                ImportStep::Report(reached(current, self.already_present)),
            ),
            ProposalStatus::Approved => Some(
                ImportStep::Report(reached(current, self.already_present)),
            ),
            ProposalStatus::Rejected => Some(ImportStep::Refuse(Self::unverified(current))),
            ProposalStatus::Verified => Some(ImportStep::Refuse(Self::unverified(current))),
            ProposalStatus::Deferred => Some(
                ImportStep::Refuse(
                    "learned-skill verification infrastructure is unavailable on this host: id="@
                        + current.skill_id@ + " status=deferred"@ + reason_suffix(
                        current.reason_code,
                    ),
                ),
            ),
            ProposalStatus::Pending => None,
            ProposalStatus::Evaluating => None,
        }
    }

    /// What is said of a proposal that cannot be approved.
    pub open spec fn unverified(current: ProposalRecord) -> Seq<char> {
        "learned-skill verification did not reach awaiting approval: id="@ + current.skill_id@
            + " status="@ + current.status.token() + reason_suffix(current.reason_code)
    }

    /// What the import does next.
    pub open spec fn next_step(
        self,
        current: ProposalRecord,
        head: Option<Seq<char>>,
        now: i64,
        clock: u64,
    ) -> ImportStep {
        if self.settled(current) is Some {
            self.settled(current)->0
        } else if clock >= self.deadline {
            ImportStep::Report(scheduled(current, self.already_present, now, None))
        } else if current.next_attempt_at is Some && current.next_attempt_at->0 > now {
            ImportStep::Sleep(
                sleep_for(current.next_attempt_at, now, left(self.deadline, clock)),
            )
        } else {
            match head {
                None => ImportStep::Report(scheduled(current, self.already_present, now, None)),
                Some(other) => if other == self.proposal_id@ {
                    ImportStep::Evaluate
                } else if blocked_for(self.blocked_since, clock) >= FOREIGN_HEAD_GRACE {
                    ImportStep::Report(
                        scheduled(current, self.already_present, now, Some(other)),
                    )
                } else if IMPORT_POLL_INTERVAL < left(self.deadline, clock) {
                    ImportStep::Sleep(IMPORT_POLL_INTERVAL)
                } else {
                    ImportStep::Sleep(left(self.deadline, clock))
                },
            }
        }
    }

    /// Since when another proposal has been ahead, after a look.
    pub open spec fn next_blocked(
        self,
        current: ProposalRecord,
        head: Option<Seq<char>>,
        now: i64,
        clock: u64,
    ) -> Option<u64> {
        if self.settled(current) is Some || clock >= self.deadline || (current.next_attempt_at
            is Some && current.next_attempt_at->0 > now) || head is None {
            self.blocked_since
        } else if head->0 == self.proposal_id@ {
            None
        } else if self.blocked_since is Some {
            self.blocked_since
        } else {
            Some(clock)
        }
    }

    /// Decides what an import does next, from its proposal, the proposal that the next
    /// evaluation would claim, and the time. It never has another proposal evaluated.
    pub fn import_package_within(
        &mut self,
        current: &ProposalRecord,
        head: Option<String>,
        now: i64,
        clock: u64,
    ) -> (r: ImportAction)
        ensures
            r@ == old(self).next_step(*current, text::opt_view(head), now, clock),
            *final(self) == (ImportWait {
                blocked_since: old(self).next_blocked(
                    *current,
                    text::opt_view(head),
                    now,
                    clock,
                ),
                ..*old(self)
            }),
    {
        match current.status {
            ProposalStatus::AwaitingApproval | ProposalStatus::Approved => {
                return ImportAction::Report(import_report(current, self.already_present));
            },
            ProposalStatus::Rejected | ProposalStatus::Verified => {
                let mut out = text::join3(
                    "learned-skill verification did not reach awaiting approval: id=",
                    &current.skill_id,
                    " status=",
                );
                out.append(admission::proposal_status(current.status));
                append_reason(&mut out, &current.reason_code);
                return ImportAction::Refuse(out);
            },
            ProposalStatus::Deferred => {
                let mut out = text::join3(
                    "learned-skill verification infrastructure is unavailable on this host: id=",
                    &current.skill_id,
                    " status=deferred",
                );
                append_reason(&mut out, &current.reason_code);
                return ImportAction::Refuse(out);
            },
            ProposalStatus::Pending | ProposalStatus::Evaluating => {},
        }
        if clock >= self.deadline {
            return ImportAction::Report(
                scheduled_report(current, self.already_present, now, None),
            );
        }
        let remaining: u64 = self.deadline - clock;
        if let Some(due) = current.next_attempt_at {
            if due > now {
                return ImportAction::Sleep(
                    sleep_until_due(current.next_attempt_at, now, remaining),
                );
            }
        }
        let other = match head {
            None => {
                return ImportAction::Report(
                    scheduled_report(current, self.already_present, now, None),
                );
            },
            Some(other) => other,
        };
        if text::same(&other, &self.proposal_id) {
            self.blocked_since = None;
            return ImportAction::Evaluate;
        }
        let since: u64 = match self.blocked_since {
            Some(start) => start,
            None => {
                self.blocked_since = Some(clock);
                clock
            },
        };
        if clock >= since && clock - since >= FOREIGN_HEAD_GRACE {
            return ImportAction::Report(
                scheduled_report(current, self.already_present, now, Some(other)),
            );
        }
        if IMPORT_POLL_INTERVAL < remaining {
            ImportAction::Sleep(IMPORT_POLL_INTERVAL)
        } else {
            ImportAction::Sleep(remaining)
        }
    }

    /// What the import does after an evaluation.
    pub open spec fn step_after(
        self,
        current: ProposalRecord,
        outcome: EvaluationOutcome,
        now: i64,
    ) -> ImportStep {
        match outcome {
            EvaluationOutcome::Evaluated => ImportStep::Continue,
            EvaluationOutcome::NothingDue => ImportStep::Report(
                scheduled(current, self.already_present, now, None),
            ),
            EvaluationOutcome::Failed { error, observed } => if observed.infrastructure_attempt_count
                > self.infrastructure_attempts {
                ImportStep::Refuse(
                    "learned-skill verification could not run in a contained worker: id="@
                        + observed.skill_id@ + " "@ + error@,
                )
            } else {
                ImportStep::Continue
            },
        }
    }

    /// The import after an evaluation. Of a failure that is no outage only the count of
    /// outages is taken over.
    pub open spec fn wait_after(self, outcome: EvaluationOutcome) -> ImportWait {
        match outcome {
            EvaluationOutcome::Failed { error, observed } => if observed.infrastructure_attempt_count
                > self.infrastructure_attempts {
                self
            } else {
                ImportWait {
                    infrastructure_attempts: observed.infrastructure_attempt_count,
                    ..self
                }
            },
            _ => self,
        }
    }

    /// Decides what follows an evaluation: of what was claimed, of nothing, or one that
    /// failed. An outage that the failure shows fails the import at once.
    pub fn after_evaluation(
        &mut self,
        current: &ProposalRecord,
        outcome: EvaluationOutcome,
        now: i64,
    ) -> (r: ImportAction)
        ensures
            r@ == old(self).step_after(*current, outcome, now),
            *final(self) == old(self).wait_after(outcome),
    {
        match outcome {
            EvaluationOutcome::Evaluated => ImportAction::Continue,
            EvaluationOutcome::NothingDue => {
                ImportAction::Report(scheduled_report(current, self.already_present, now, None))
            },
            EvaluationOutcome::Failed { error, observed } => {
                if observed.infrastructure_attempt_count > self.infrastructure_attempts {
                    let mut out = text::join3(
                        "learned-skill verification could not run in a contained worker: id=",
                        &observed.skill_id,
                        " ",
                    );
                    out.append(&error);
                    return ImportAction::Refuse(out);
                }
                self.infrastructure_attempts = observed.infrastructure_attempt_count;
                ImportAction::Continue
            },
        }
    }
}

/// How an evaluation went.
#[derive(Debug, Clone, PartialEq, Eq)]
pub enum EvaluationOutcome {
    Evaluated,
    NothingDue,
    /// It failed; the proposal as it is stored now.
    Failed { error: String, observed: ProposalRecord },
}

/// An import has only its own proposal evaluated, only while that is undecided, and
/// only within its budget.
pub proof fn law_imports_evaluate_only_their_own(
    wait: ImportWait,
    current: ProposalRecord,
    head: Option<Seq<char>>,
    now: i64,
    clock: u64,
)
    requires
        wait.next_step(current, head, now, clock) is Evaluate,
    ensures
        head == Some(wait.proposal_id@),
        current.status == ProposalStatus::Pending || current.status == ProposalStatus::Evaluating,
        clock < wait.deadline,
{
}

/// The report of an approval. An approval that is replayed names its own generation
/// beside the one that is published and the live status.
pub fn approve_report(
    result: &CanaryApprovalResult,
    published_generation: u64,
    status: &str,
) -> (r: OperatorReport)
    ensures
        r@ == ReportModel::of("approve"@).and("id"@, ValueModel::Text(result.skill_id@)).and(
            "status"@,
            ValueModel::Text(status@),
        ).and("generation"@, ValueModel::Count(published_generation)).and(
            "approval_generation"@,
            ValueModel::Count(result.generation),
        ).and("idempotent"@, ValueModel::Flag(result.idempotent)),
{
    OperatorReport::new("approve").with_text("id", &result.skill_id).with_text(
        "status",
        status,
    ).with("generation", ReportValue::Count(published_generation)).with(
        "approval_generation",
        ReportValue::Count(result.generation),
    ).with("idempotent", ReportValue::Flag(result.idempotent))
}

/// The policy under which a root is activated by its owner.
pub const ACTIVATION_POLICY_VERSION: &'static str = "local-owner-eval-baseline-v1";

/// What that policy says.
pub const ACTIVATION_POLICY_JSON: &'static str = "{\"require_held_out_baseline\":true,\"require_second_local_owner_action\":true}";

/// What activating a skill comes to.
#[derive(Debug, Clone, PartialEq, Eq)]
pub enum ActivationDecision {
    /// It is active already.
    Already,
    /// It is an approved canary.
    Activate,
    /// It cannot be activated, for the reason given.
    Refuse(String),
}

/// The contents of an [`ActivationDecision`].
#[verifier::ext_equal]
pub enum ActivationModel {
    Already,
    Activate,
    Refuse(Seq<char>),
}

impl View for ActivationDecision {
    type V = ActivationModel;

    open spec fn view(&self) -> ActivationModel {
        match *self {
            ActivationDecision::Already => ActivationModel::Already,
            ActivationDecision::Activate => ActivationModel::Activate,
            ActivationDecision::Refuse(s) => ActivationModel::Refuse(s@),
        }
    }
}

/// What activating a skill comes to.
pub open spec fn activation(
    skill_id: Seq<char>,
    proposal: Option<ProposalRecord>,
    status: Option<Seq<char>>,
) -> ActivationModel {
    match proposal {
        None => ActivationModel::Refuse("learned-skill proposal not found"@),
        Some(p) => if p.predecessor_id is Some {
            ActivationModel::Refuse(
                "learned skill "@ + skill_id
                    + " is a replacement, not a lineage root; promote it with --promote-learned-skill instead of --activate-learned-skill"@,
            )
        } else {
            match status {
                None => ActivationModel::Refuse("learned-skill revision not found"@),
                Some(s) => if s == "active"@ {
                    ActivationModel::Already
                } else if s == "canary"@ {
                    ActivationModel::Activate
                } else {
                    ActivationModel::Refuse(
                        "learned-skill activation requires an approved canary; current status is "@
                            + s,
                    )
                },
            }
        },
    }
}

/// Decides what activating a skill comes to, before anything is built for it: only an
/// approved canary at the root of its lineage can be activated.
pub fn activate_skill(
    skill_id: &str,
    proposal: &Option<ProposalRecord>,
    status: &Option<String>,
) -> (r: ActivationDecision)
    ensures
        r@ == activation(skill_id@, *proposal, text::opt_view(*status)),
{
    let proposal = match proposal {
        None => {
            return ActivationDecision::Refuse("learned-skill proposal not found".to_owned());
        },
        Some(proposal) => proposal,
    };
    if proposal.predecessor_id.is_some() {
        return ActivationDecision::Refuse(
            text::join3(
                "learned skill ",
                skill_id,
                " is a replacement, not a lineage root; promote it with --promote-learned-skill instead of --activate-learned-skill",
            ),
        );
    }
    match status {
        None => ActivationDecision::Refuse("learned-skill revision not found".to_owned()),
        Some(s) => {
            if text::same(s, "active") {
                ActivationDecision::Already
            } else if text::same(s, "canary") {
                ActivationDecision::Activate
            } else {
                ActivationDecision::Refuse(
                    text::join2(
                        "learned-skill activation requires an approved canary; current status is ",
                        s,
                    ),
                )
            }
        },
    }
}

/// What an activation is asked with.
#[derive(Debug, Clone, PartialEq, Eq)]
pub struct ActivationPlan {
    pub idempotency_key: String,
    pub report_id: String,
    pub row_version: i64,
    pub snapshot: EvidenceSnapshot,
}

/// The snapshot of an activation. It cites no evidence: the second action of the owner
/// is bound to the report.
pub open spec fn activation_snapshot(
    skill_id: Seq<char>,
    row_version: i64,
    generation: i64,
) -> crate::lifecycle::SnapshotModel {
    crate::lifecycle::SnapshotModel {
        schema_version: crate::lifecycle::EVIDENCE_SNAPSHOT_VERSION,
        artifact_id: skill_id,
        predecessor_id: None,
        policy_version: ACTIVATION_POLICY_VERSION@,
        evidence_ids: Seq::empty(),
        policy_inputs: Seq::empty(),
        artifact_row_version: row_version,
        predecessor_row_version: None,
        index_generation: generation,
    }
}

/// Why an activation cannot be asked.
pub open spec fn activation_fault(
    skill_id: Seq<char>,
    report_id: Option<String>,
    row_version: Option<u64>,
    generation: u64,
) -> Option<OperationFault> {
    if report_id is None {
        Some(OperationFault::Refused("learned-skill evaluation report is missing"@))
    } else if row_version is None {
        Some(OperationFault::Refused("learned-skill revision not found"@))
    } else if row_version->0 > i64::MAX {
        Some(OperationFault::Refused("learned-skill row version is out of range"@))
    } else if generation > i64::MAX {
        Some(OperationFault::Refused("learned-skill generation is out of range"@))
    } else {
        match activation_snapshot(skill_id, row_version->0 as i64, generation as i64).fault() {
            Some(f) => Some(OperationFault::Lifecycle(f)),
            None => None,
        }
    }
}

/// Prepares an activation.
pub fn plan_activation(
    skill_id: &str,
    report_id: &Option<String>,
    row_version: Option<u64>,
    desired_generation: u64,
) -> (r: Result<ActivationPlan, OperationError>)
    ensures
        match activation_fault(skill_id@, *report_id, row_version, desired_generation) {
            Some(f) => r is Err && r->Err_0@ == f,
            None => {
                &&& r is Ok
                &&& r->Ok_0.idempotency_key@ == "local-owner-activate-"@ + skill_id@
                &&& r->Ok_0.report_id@ == report_id->0@
                &&& r->Ok_0.row_version == row_version->0
                &&& r->Ok_0.snapshot@ == activation_snapshot(
                    skill_id@,
                    row_version->0 as i64,
                    desired_generation as i64,
                )
            },
        },
{
    let report = match report_id {
        None => {
            return Err(
                OperationError::Refused("learned-skill evaluation report is missing".to_owned()),
            );
        },
        Some(report) => report.clone(),
    };
    let version: u64 = match row_version {
        None => {
            return Err(OperationError::Refused("learned-skill revision not found".to_owned()));
        },
        Some(version) => version,
    };
    if version > i64::MAX as u64 {
        return Err(
            OperationError::Refused("learned-skill row version is out of range".to_owned()),
        );
    }
    if desired_generation > i64::MAX as u64 {
        return Err(
            OperationError::Refused("learned-skill generation is out of range".to_owned()),
        );
    }
    let none: Vec<String> = Vec::new();
    let inputs: Vec<PolicyInput> = Vec::new();
    proof {
        let empty = text::views(none@);
        assert(empty =~= Seq::empty());
        text::lemma_lex_total_ordering();
        empty.lemma_sort_by_ensures(text::lex_order());
        empty.to_multiset_ensures();
        text::sorted_texts(empty).to_multiset_ensures();
        assert(text::sorted_texts(empty).len() == 0);
        assert(text::sorted_texts(empty) =~= Seq::empty());
        assert(crate::lifecycle::policy_input_views(inputs@) =~= Seq::empty());
        assert(empty.no_duplicates());
    }
    let snapshot = EvidenceSnapshot::new(
        skill_id.to_owned(),
        None,
        ACTIVATION_POLICY_VERSION.to_owned(),
        none,
        inputs,
        version as i64,
        None,
        desired_generation as i64,
    );
    match snapshot {
        Ok(snapshot) => Ok(
            ActivationPlan {
                idempotency_key: text::join2("local-owner-activate-", skill_id),
                report_id: report,
                row_version: version as i64,
                snapshot,
            },
        ),
        Err(e) => Err(OperationError::Lifecycle(e)),
    }
}

/// The policy under which a replacement is promoted by its owner. Nothing in it is
/// decided by a threshold.
pub const OPERATOR_PROMOTION_POLICY_VERSION: &'static str = "local-owner-operator-promotion-v1";

/// What that policy says.
pub const OPERATOR_PROMOTION_POLICY_JSON: &'static str = "{\"operator_promotion\":true,\"require_second_local_owner_action\":true,\"evidence_threshold_promotion\":false}";

/// Why a promotion by its owner was made.
pub const OPERATOR_PROMOTION_REASON: &'static str = "operator_local_owner_replacement_promotion";

/// What promoting a replacement comes to, as far as the candidate decides.
#[derive(Debug, Clone, PartialEq, Eq)]
pub enum PromotionDecision {
    /// It is active already.
    Already { predecessor_id: String },
    /// It is a canary that is bound to the predecessor.
    Promote { predecessor_id: String },
    /// It cannot be promoted, for the reason given.
    Refuse(String),
}

/// The contents of a [`PromotionDecision`].
#[verifier::ext_equal]
pub enum PromotionModel {
    Already { predecessor_id: Seq<char> },
    Promote { predecessor_id: Seq<char> },
    Refuse(Seq<char>),
}

impl View for PromotionDecision {
    type V = PromotionModel;

    open spec fn view(&self) -> PromotionModel {
        match *self {
            PromotionDecision::Already { predecessor_id } => {
                PromotionModel::Already { predecessor_id: predecessor_id@ }
            },
            PromotionDecision::Promote { predecessor_id } => {
                PromotionModel::Promote { predecessor_id: predecessor_id@ }
            },
            PromotionDecision::Refuse(s) => PromotionModel::Refuse(s@),
        }
    }
}

/// The predecessor that a proposal replaces, or why it cannot be promoted.
pub open spec fn replaced_by(skill_id: Seq<char>, proposal: Option<ProposalRecord>) -> Result<
    Seq<char>,
    Seq<char>,
> {
    match proposal {
        None => Err("learned-skill proposal not found"@),
        Some(p) => match p.predecessor_id {
            None => Err(
                "learned skill "@ + skill_id
                    + " is a lineage root with no predecessor; activate it with --activate-learned-skill instead"@,
            ),
            Some(predecessor) => Ok(predecessor@),
        },
    }
}

/// Finds the predecessor that a proposal replaces, before either revision is read.
pub fn replaced_predecessor(skill_id: &str, proposal: &Option<ProposalRecord>) -> (r: Result<
    String,
    String,
>)
    ensures
        match replaced_by(skill_id@, *proposal) {
            Ok(predecessor) => r is Ok && r->Ok_0@ == predecessor,
            Err(reason) => r is Err && r->Err_0@ == reason,
        },
{
    match proposal {
        None => Err("learned-skill proposal not found".to_owned()),
        Some(proposal) => match &proposal.predecessor_id {
            None => Err(
                text::join3(
                    "learned skill ",
                    skill_id,
                    " is a lineage root with no predecessor; activate it with --activate-learned-skill instead",
                ),
            ),
            Some(predecessor) => Ok(predecessor.clone()),
        },
    }
}

/// What promoting a replacement comes to, as far as the candidate decides.
pub open spec fn promotion(
    skill_id: Seq<char>,
    proposal: Option<ProposalRecord>,
    candidate: RevisionState,
) -> PromotionModel {
    match replaced_by(skill_id, proposal) {
        Err(reason) => PromotionModel::Refuse(reason),
        Ok(predecessor) => if candidate.status == LifecycleStatus::Active {
            PromotionModel::Already { predecessor_id: predecessor }
        } else if candidate.status != LifecycleStatus::Canary {
            PromotionModel::Refuse(
                "learned-skill replacement promotion requires an approved canary; revision "@
                    + skill_id + " is "@ + candidate.status.token(),
            )
        } else if text::opt_view(candidate.supersedes_id) != Some(predecessor) {
            PromotionModel::Refuse(
                "learned-skill replacement promotion requires a canary bound to its predecessor; revision "@
                    + skill_id + " supersedes "@ + match candidate.supersedes_id {
                    Some(s) => s@,
                    None => "nothing"@,
                } + " but its proposal names "@ + predecessor,
            )
        } else {
            PromotionModel::Promote { predecessor_id: predecessor }
        },
    }
}

/// Decides what promoting a replacement comes to, as far as the candidate decides.
pub fn check_candidate(
    skill_id: &str,
    proposal: &Option<ProposalRecord>,
    candidate: &RevisionState,
) -> (r: PromotionDecision)
    ensures
        r@ == promotion(skill_id@, *proposal, *candidate),
{
    let predecessor = match replaced_predecessor(skill_id, proposal) {
        Ok(predecessor) => predecessor,
        Err(reason) => {
            return PromotionDecision::Refuse(reason);
        },
    };
    if candidate.status == LifecycleStatus::Active {
        return PromotionDecision::Already { predecessor_id: predecessor };
    }
    if candidate.status != LifecycleStatus::Canary {
        let mut out = text::join3(
            "learned-skill replacement promotion requires an approved canary; revision ",
            skill_id,
            " is ",
        );
        out.append(candidate.status.as_token());
        return PromotionDecision::Refuse(out);
    }
    if !text::is_text(&candidate.supersedes_id, &predecessor) {
        let bound = match &candidate.supersedes_id {
            Some(s) => s.clone(),
            None => "nothing".to_owned(),
        };
        let mut out = text::join3(
            "learned-skill replacement promotion requires a canary bound to its predecessor; revision ",
            skill_id,
            " supersedes ",
        );
        out.append(&bound);
        out.append(" but its proposal names ");
        out.append(&predecessor);
        return PromotionDecision::Refuse(out);
    }
    PromotionDecision::Promote { predecessor_id: predecessor }
}

/// What a promotion is asked with.
#[derive(Debug, Clone)]
pub struct PromotionPlan {
    pub report_id: String,
    pub evidence_id: String,
    pub evidence_payload: String,
    pub predecessor_from: LifecycleStatus,
    pub request: ReplacementTransitionRequest,
}

/// What binds an attempt to what was observed, so that the same observation is the same
/// attempt and another is another.
pub open spec fn promotion_attempt(candidate: i64, predecessor: i64, generation: i64) -> Seq<char> {
    text::signed_decimal(candidate as int) + "-"@ + text::signed_decimal(predecessor as int) + "-"@
        + text::signed_decimal(generation as int)
}

/// A number in a document.
pub open spec fn number_document(n: i64) -> Json {
    ValueModel::Number(n).document()
}

/// The evidence of a promotion by the owner.
pub open spec fn promotion_evidence(
    skill_id: Seq<char>,
    predecessor_id: Seq<char>,
    from: LifecycleStatus,
    candidate: i64,
    predecessor: i64,
    generation: i64,
    report_id: Seq<char>,
) -> Json {
    Json::Object(
        seq![
            ("actor"@, Json::Text("local-owner"@)),
            ("action"@, Json::Text("explicit_operator_promotion"@)),
            ("candidate_id"@, Json::Text(skill_id)),
            ("predecessor_id"@, Json::Text(predecessor_id)),
            ("predecessor_from"@, Json::Text(from.token())),
            ("candidate_row_version"@, number_document(candidate)),
            ("predecessor_row_version"@, number_document(predecessor)),
            ("index_generation"@, number_document(generation)),
            ("evaluation_report_id"@, Json::Text(report_id)),
            ("evidence_threshold_promotion"@, Json::Bool(false)),
        ],
    )
}

/// What the policy was given.
pub open spec fn promotion_input(from: LifecycleStatus, report_id: Seq<char>) -> Json {
    Json::Object(
        seq![
            ("actor"@, Json::Text("local-owner"@)),
            ("predecessor_from"@, Json::Text(from.token())),
            ("evaluation_report_id"@, Json::Text(report_id)),
        ],
    )
}

/// The snapshot of a promotion.
pub open spec fn promotion_snapshot(
    skill_id: Seq<char>,
    predecessor_id: Seq<char>,
    evidence_id: Seq<char>,
    from: LifecycleStatus,
    candidate: i64,
    predecessor: i64,
    generation: i64,
    report_id: Seq<char>,
) -> crate::lifecycle::SnapshotModel {
    crate::lifecycle::SnapshotModel {
        schema_version: crate::lifecycle::EVIDENCE_SNAPSHOT_VERSION,
        artifact_id: skill_id,
        predecessor_id: Some(predecessor_id),
        policy_version: OPERATOR_PROMOTION_POLICY_VERSION@,
        evidence_ids: seq![evidence_id],
        policy_inputs: seq![
            crate::lifecycle::PolicyInputModel {
                name: "operator_promotion"@,
                json: json::json_rendered(promotion_input(from, report_id)),
            },
        ],
        artifact_row_version: candidate,
        predecessor_row_version: Some(predecessor),
        index_generation: generation,
    }
}

/// The id of the evidence of a promotion.
pub open spec fn promotion_evidence_id(skill_id: Seq<char>, attempt: Seq<char>) -> Seq<char> {
    "operator-promotion:"@ + skill_id + ":"@ + attempt
}

/// Why a promotion cannot be asked, once the candidate allows it.
pub open spec fn promotion_fault(
    skill_id: Seq<char>,
    predecessor_id: Seq<char>,
    report_id: Option<String>,
    candidate: RevisionState,
    predecessor: RevisionState,
    generation: u64,
) -> Option<OperationFault> {
    if predecessor.status != LifecycleStatus::Active && predecessor.status
        != LifecycleStatus::Quarantined {
        Some(
            OperationFault::Refused(
                "learned-skill replacement promotion requires an active or quarantined predecessor; predecessor "@
                    + predecessor_id + " is "@ + predecessor.status.token(),
            ),
        )
    } else if report_id is None {
        Some(OperationFault::Refused("learned-skill evaluation report is missing"@))
    } else if generation > i64::MAX {
        Some(OperationFault::Refused("learned-skill generation is out of range"@))
    } else {
        let attempt = promotion_attempt(
            candidate.row_version,
            predecessor.row_version,
            generation as i64,
        );
        match promotion_snapshot(
            skill_id,
            predecessor_id,
            promotion_evidence_id(skill_id, attempt),
            predecessor.status,
            candidate.row_version,
            predecessor.row_version,
            generation as i64,
            report_id->0@,
        ).fault() {
            Some(f) => Some(OperationFault::Lifecycle(f)),
            None => None,
        }
    }
}

/// The plan asks for exactly this promotion.
pub open spec fn is_promotion_plan(
    plan: PromotionPlan,
    skill_id: Seq<char>,
    predecessor_id: Seq<char>,
    report_id: Seq<char>,
    candidate: RevisionState,
    predecessor: RevisionState,
    generation: i64,
) -> bool {
    let attempt = promotion_attempt(candidate.row_version, predecessor.row_version, generation);
    let evidence_id = promotion_evidence_id(skill_id, attempt);
    &&& plan.report_id@ == report_id
    &&& plan.evidence_id@ == evidence_id
    &&& plan.evidence_payload@ == json::json_rendered(
        promotion_evidence(
            skill_id,
            predecessor_id,
            predecessor.status,
            candidate.row_version,
            predecessor.row_version,
            generation,
            report_id,
        ),
    )
    &&& plan.predecessor_from == predecessor.status
    &&& plan.request.idempotency_key@ == "local-owner-promote:"@ + skill_id + ":"@ + attempt
    &&& plan.request.candidate_id@ == skill_id
    &&& plan.request.predecessor_id@ == predecessor_id
    &&& plan.request.candidate_row_version == candidate.row_version
    &&& plan.request.predecessor_row_version == predecessor.row_version
    &&& plan.request.reason@ == OPERATOR_PROMOTION_REASON@
    &&& plan.request.snapshot@ == promotion_snapshot(
        skill_id,
        predecessor_id,
        evidence_id,
        predecessor.status,
        candidate.row_version,
        predecessor.row_version,
        generation,
        report_id,
    )
}

fn number_tree(n: i64) -> (r: JsonValue)
    ensures
        r@ == number_document(n),
{
    value_tree(&ReportValue::Number(n))
}

fn evidence_text(
    skill_id: &str,
    predecessor_id: &str,
    from: LifecycleStatus,
    candidate: i64,
    predecessor: i64,
    generation: i64,
    report_id: &str,
) -> (r: String)
    ensures
        r@ == json::json_rendered(
            promotion_evidence(
                skill_id@,
                predecessor_id@,
                from,
                candidate,
                predecessor,
                generation,
                report_id@,
            ),
        ),
{
    let mut entries: Vec<(String, JsonValue)> = Vec::new();
    assert(json::entry_views(entries@) =~= Seq::empty());
    json::push_entry(&mut entries, "actor", JsonValue::Text("local-owner".to_owned()));
    json::push_entry(
        &mut entries,
        "action",
        JsonValue::Text("explicit_operator_promotion".to_owned()),
    );
    json::push_entry(&mut entries, "candidate_id", JsonValue::Text(skill_id.to_owned()));
    json::push_entry(&mut entries, "predecessor_id", JsonValue::Text(predecessor_id.to_owned()));
    json::push_entry(
        &mut entries,
        "predecessor_from",
        JsonValue::Text(from.as_token().to_owned()),
    );
    json::push_entry(&mut entries, "candidate_row_version", number_tree(candidate));
    json::push_entry(&mut entries, "predecessor_row_version", number_tree(predecessor));
    json::push_entry(&mut entries, "index_generation", number_tree(generation));
    json::push_entry(&mut entries, "evaluation_report_id", JsonValue::Text(report_id.to_owned()));
    json::push_entry(&mut entries, "evidence_threshold_promotion", JsonValue::Bool(false));
    proof {
        json::lemma_object_view(entries);
        assert(json::entry_views(entries@) =~= promotion_evidence(
            skill_id@,
            predecessor_id@,
            from,
            candidate,
            predecessor,
            generation,
            report_id@,
        )->Object_0);
    }
    render_tree(JsonValue::Object(entries))
}

fn input_text(from: LifecycleStatus, report_id: &str) -> (r: String)
    ensures
        r@ == json::json_rendered(promotion_input(from, report_id@)),
{
    let mut entries: Vec<(String, JsonValue)> = Vec::new();
    assert(json::entry_views(entries@) =~= Seq::empty());
    json::push_entry(&mut entries, "actor", JsonValue::Text("local-owner".to_owned()));
    json::push_entry(
        &mut entries,
        "predecessor_from",
        JsonValue::Text(from.as_token().to_owned()),
    );
    json::push_entry(&mut entries, "evaluation_report_id", JsonValue::Text(report_id.to_owned()));
    proof {
        json::lemma_object_view(entries);
        assert(json::entry_views(entries@) =~= promotion_input(from, report_id@)->Object_0);
    }
    render_tree(JsonValue::Object(entries))
}

proof fn lemma_sorted_single(x: Seq<char>)
    ensures
        text::sorted_texts(seq![x]) == seq![x],
{
    let s = seq![x];
    text::lemma_lex_total_ordering();
    s.lemma_sort_by_ensures(text::lex_order());
    vstd::seq_lib::lemma_sorted_unique(s, text::sorted_texts(s), text::lex_order());
}

/// Prepares the promotion of a replacement over its predecessor, which is active, or
/// quarantined where a defective skill has to give way. The attempt is bound to the row
/// versions and the generation that were observed.
pub fn promote_replacement_skill(
    skill_id: &str,
    predecessor_id: &str,
    report_id: &Option<String>,
    candidate: &RevisionState,
    predecessor: &RevisionState,
    desired_generation: u64,
) -> (r: Result<PromotionPlan, OperationError>)
    ensures
        match promotion_fault(
            skill_id@,
            predecessor_id@,
            *report_id,
            *candidate,
            *predecessor,
            desired_generation,
        ) {
            Some(f) => r is Err && r->Err_0@ == f,
            None => r is Ok && is_promotion_plan(
                r->Ok_0,
                skill_id@,
                predecessor_id@,
                report_id->0@,
                *candidate,
                *predecessor,
                desired_generation as i64,
            ),
        },
{
    let from = predecessor.status;
    if from != LifecycleStatus::Active && from != LifecycleStatus::Quarantined {
        let mut out = text::join3(
            "learned-skill replacement promotion requires an active or quarantined predecessor; predecessor ",
            predecessor_id,
            " is ",
        );
        out.append(from.as_token());
        return Err(OperationError::Refused(out));
    }
    let report = match report_id {
        None => {
            return Err(
                OperationError::Refused("learned-skill evaluation report is missing".to_owned()),
            );
        },
        Some(report) => report.clone(),
    };
    if desired_generation > i64::MAX as u64 {
        return Err(
            OperationError::Refused("learned-skill generation is out of range".to_owned()),
        );
    }
    let generation = desired_generation as i64;
    let first = text::render_i64(candidate.row_version);
    let second = text::render_i64(predecessor.row_version);
    let third = text::render_i64(generation);
    let mut attempt = text::join3(&first, "-", &second);
    attempt.append("-");
    attempt.append(&third);
    let mut evidence_id = text::join3("operator-promotion:", skill_id, ":");
    evidence_id.append(&attempt);
    let mut key = text::join3("local-owner-promote:", skill_id, ":");
    key.append(&attempt);
    let evidence_payload = evidence_text(
        skill_id,
        predecessor_id,
        from,
        candidate.row_version,
        predecessor.row_version,
        generation,
        &report,
    );
    let mut evidence_ids: Vec<String> = Vec::new();
    evidence_ids.push(evidence_id.clone());
    let mut inputs: Vec<PolicyInput> = Vec::new();
    inputs.push(
        PolicyInput { name: "operator_promotion".to_owned(), json: input_text(from, &report) },
    );
    proof {
        assert(text::views(evidence_ids@) =~= seq![evidence_id@]);
        assert(text::views(evidence_ids@).no_duplicates());
        lemma_sorted_single(evidence_id@);
        assert(crate::lifecycle::policy_input_views(inputs@) =~= promotion_snapshot(
            skill_id@,
            predecessor_id@,
            evidence_id@,
            from,
            candidate.row_version,
            predecessor.row_version,
            generation,
            report@,
        ).policy_inputs);
        crate::lifecycle::lemma_one_input(inputs@[0]@);
    }
    let snapshot = EvidenceSnapshot::new(
        skill_id.to_owned(),
        Some(predecessor_id.to_owned()),
        OPERATOR_PROMOTION_POLICY_VERSION.to_owned(),
        evidence_ids,
        inputs,
        candidate.row_version,
        Some(predecessor.row_version),
        generation,
    );
    let snapshot = match snapshot {
        Ok(snapshot) => snapshot,
        Err(e) => {
            return Err(OperationError::Lifecycle(e));
        },
    };
    let request = ReplacementTransitionRequest {
        idempotency_key: key,
        candidate_id: skill_id.to_owned(),
        predecessor_id: predecessor_id.to_owned(),
        candidate_row_version: candidate.row_version,
        predecessor_row_version: predecessor.row_version,
        reason: OPERATOR_PROMOTION_REASON.to_owned(),
        snapshot,
    };
    Ok(
        PromotionPlan {
            report_id: report,
            evidence_id,
            evidence_payload,
            predecessor_from: from,
            request,
        },
    )
}

/// The kind of feedback that a word names.
pub fn feedback_kind(word: &str) -> (r: Result<FeedbackKind, &'static str>)
    ensures
        if word@ == "positive"@ {
            r == Ok::<FeedbackKind, &'static str>(FeedbackKind::Positive)
        } else if word@ == "negative"@ {
            r == Ok::<FeedbackKind, &'static str>(FeedbackKind::Negative)
        } else if word@ == "severe"@ {
            r == Ok::<FeedbackKind, &'static str>(FeedbackKind::Severe)
        } else {
            r is Err && r->Err_0@ == "invalid learned-skill feedback kind"@
        },
{
    proof {
        reveal_strlit("positive");
        reveal_strlit("negative");
        reveal_strlit("severe");
    }
    if text::same(word, "positive") {
        Ok(FeedbackKind::Positive)
    } else if text::same(word, "negative") {
        Ok(FeedbackKind::Negative)
    } else if text::same(word, "severe") {
        Ok(FeedbackKind::Severe)
    } else {
        Err("invalid learned-skill feedback kind")
    }
}

/// Why severe feedback quarantines a skill.
#[derive(Debug, Clone, Copy, PartialEq, Eq, Structural)]
pub enum QuarantineReason {
    AuthenticatedCanarySafetyFeedback,
    AuthenticatedActiveIntegrityFeedback,
}

/// What a quarantine is decided on.
#[derive(Debug, Clone, PartialEq, Eq)]
pub struct QuarantineEvidence {
    pub skill_id: String,
    pub reason: QuarantineReason,
    pub qualified_invocations: u64,
    pub direct_failures: u64,
    pub evidence_complete: bool,
    pub authenticated_feedback: bool,
    pub feedback_marked_severe: bool,
    pub row_version_current: bool,
    pub generation_current: bool,
}

/// What severe feedback comes to.
#[derive(Debug, Clone, PartialEq, Eq)]
pub enum Containment {
    /// Nothing is contained, for the reason given.
    Skipped(String),
    /// The skill is quarantined from this status, for this reason.
    Quarantine { from: LifecycleStatus, reason: QuarantineReason },
}

/// The contents of a [`Containment`].
#[verifier::ext_equal]
pub enum ContainmentModel {
    Skipped(Seq<char>),
    Quarantine { from: LifecycleStatus, reason: QuarantineReason },
}

impl View for Containment {
    type V = ContainmentModel;

    open spec fn view(&self) -> ContainmentModel {
        match *self {
            Containment::Skipped(detail) => ContainmentModel::Skipped(detail@),
            Containment::Quarantine { from, reason } => {
                ContainmentModel::Quarantine { from, reason }
            },
        }
    }
}

/// What severe feedback comes to, from the status of its target, or why it cannot be told.
pub open spec fn containment(status: Option<Seq<char>>) -> Result<ContainmentModel, Seq<char>> {
    match status {
        None => Err("feedback target disappeared"@),
        Some(token) => match crate::lifecycle::status_of(token) {
            None => Err("feedback target has an invalid lifecycle status"@),
            Some(LifecycleStatus::Canary) => Ok(
                ContainmentModel::Quarantine {
                    from: LifecycleStatus::Canary,
                    reason: QuarantineReason::AuthenticatedCanarySafetyFeedback,
                },
            ),
            Some(LifecycleStatus::Active) => Ok(
                ContainmentModel::Quarantine {
                    from: LifecycleStatus::Active,
                    reason: QuarantineReason::AuthenticatedActiveIntegrityFeedback,
                },
            ),
            Some(other) => Ok(ContainmentModel::Skipped("ineligible_status:"@ + other.token())),
        },
    }
}

/// Decides what severe feedback comes to, from the status of its target: only what is
/// retrievable, or about to be, is contained.
pub fn contain_severe_feedback(status: &Option<String>) -> (r: Result<Containment, &'static str>)
    ensures
        match containment(text::opt_view(*status)) {
            Ok(m) => r is Ok && r->Ok_0@ == m,
            Err(s) => r is Err && r->Err_0@ == s,
        },
{
    let token = match status {
        None => {
            return Err("feedback target disappeared");
        },
        Some(token) => token,
    };
    match LifecycleStatus::from_token(token) {
        None => Err("feedback target has an invalid lifecycle status"),
        Some(LifecycleStatus::Canary) => Ok(
            Containment::Quarantine {
                from: LifecycleStatus::Canary,
                reason: QuarantineReason::AuthenticatedCanarySafetyFeedback,
            },
        ),
        Some(LifecycleStatus::Active) => Ok(
            Containment::Quarantine {
                from: LifecycleStatus::Active,
                reason: QuarantineReason::AuthenticatedActiveIntegrityFeedback,
            },
        ),
        Some(other) => Ok(
            Containment::Skipped(text::join2("ineligible_status:", other.as_token())),
        ),
    }
}

/// What the quarantine of a target is decided on.
pub fn quarantine_evidence(
    skill_id: &str,
    reason: QuarantineReason,
    desired_generation: u64,
    applied_generation: u64,
) -> (r: QuarantineEvidence)
    ensures
        r.skill_id@ == skill_id@,
        r.reason == reason,
        r.qualified_invocations == 0,
        r.direct_failures == 0,
        r.evidence_complete,
        r.authenticated_feedback,
        r.feedback_marked_severe,
        r.row_version_current,
        r.generation_current == (desired_generation == applied_generation),
{
    QuarantineEvidence {
        skill_id: skill_id.to_owned(),
        reason,
        qualified_invocations: 0,
        direct_failures: 0,
        evidence_complete: true,
        authenticated_feedback: true,
        feedback_marked_severe: true,
        row_version_current: true,
        generation_current: desired_generation == applied_generation,
    }
}

/// What is reported of feedback.
pub open spec fn feedback_reported(
    skill_id: Seq<char>,
    feedback_id: Seq<char>,
    kind: Seq<char>,
    status: Seq<char>,
    quarantine: Seq<char>,
    detail: Option<Seq<char>>,
) -> ReportModel {
    ReportModel::of("feedback"@).and("id"@, ValueModel::Text(skill_id)).and(
        "feedback_id"@,
        ValueModel::Text(feedback_id),
    ).and("kind"@, ValueModel::Text(kind)).and("status"@, ValueModel::Text(status)).and(
        "quarantine"@,
        ValueModel::Text(quarantine),
    ).and("quarantine_reason"@, optional_text(detail))
}

/// The report of feedback.
pub fn feedback_report(
    skill_id: &str,
    feedback_id: &str,
    kind: &str,
    status: &str,
    quarantine: &str,
    detail: &Option<String>,
) -> (r: OperatorReport)
    ensures
        r@ == feedback_reported(
            skill_id@,
            feedback_id@,
            kind@,
            status@,
            quarantine@,
            text::opt_view(*detail),
        ),
{
    OperatorReport::new("feedback").with_text("id", skill_id).with_text(
        "feedback_id",
        feedback_id,
    ).with_text("kind", kind).with_text("status", status).with_text(
        "quarantine",
        quarantine,
    ).with_optional("quarantine_reason", detail)
}

/// What is reported of the use of a skill is what the store holds of it, count by count;
/// each success is taken to have saved a round trip for every declared method beyond the
/// first.
pub proof fn law_usage_is_reported_as_stored(row: UsageRow, stats: SkillUsageStats)
    requires
        usage_of(row, stats),
    ensures
        stats.skill_id@ == row.skill_id@,
        stats.status@ == row.status@,
        row.invocations >= 0 ==> stats.invocations == row.invocations,
        row.direct_successes >= 0 ==> stats.direct_successes == row.direct_successes,
        row.direct_failures >= 0 ==> stats.direct_failures == row.direct_failures,
        row.tasks_with >= 0 ==> stats.tasks_with == row.tasks_with,
        row.passed_with >= 0 ==> stats.passed_with == row.passed_with,
        row.baseline_tasks >= 0 ==> stats.baseline_tasks == row.baseline_tasks,
        row.baseline_passes >= 0 ==> stats.baseline_passes == row.baseline_passes,
        row.gym_tasks >= 0 ==> stats.gym_tasks == row.gym_tasks,
        row.user_positive >= 0 ==> stats.user_positive == row.user_positive,
        row.user_negative >= 0 ==> stats.user_negative == row.user_negative,
        row.invocations < 0 ==> stats.invocations == 0,
        stats.last_used == row.last_used,
        ({
            let methods = stats.declared_effect_methods as int;
            let saved = if methods == 0 {
                0
            } else {
                stats.direct_successes * (methods - 1)
            };
            stats.estimated_round_trips_saved == if saved > u64::MAX {
                u64::MAX as int
            } else {
                saved
            }
        }),
{
    let s = stats.direct_successes as int;
    assert(s * 0 == 0);
}

/// A ratio is told only where there is something to compare with, and then with its own
/// parts: the successes among the invocations that ended, and the passes among the tasks
/// without the skill.
pub proof fn law_ratios_need_something_to_compare_with(stats: SkillUsageStats)
    requires
        stats.direct_successes + stats.direct_failures <= u64::MAX,
    ensures
        stats.success_parts() is None <==> stats.direct_successes == 0 && stats.direct_failures
            == 0,
        stats.success_parts() matches Some(parts) ==> parts.0 == stats.direct_successes && parts.1
            == stats.direct_successes + stats.direct_failures,
        stats.baseline_parts() is None <==> stats.baseline_tasks == 0,
        stats.baseline_parts() matches Some(parts) ==> parts.0 == stats.baseline_passes && parts.1
            == stats.baseline_tasks,
{
}

/// A proposal stands in the queue in each of the six statuses in which it waits for
/// something, and in no other; the older goes first.
pub proof fn law_open_proposals_wait_for_something(
    status: Seq<char>,
    a: ProposalQueueRow,
    b: ProposalQueueRow,
)
    ensures
        is_open_status(status) <==> (status == "pending"@ || status == "evaluating"@ || status
            == "verified"@ || status == "awaiting_approval"@ || status == "approved"@ || status
            == "deferred"@),
        !is_open_status("rejected"@),
        a.created_at < b.created_at ==> a.precedes(b) && !b.precedes(a),
{
    reveal_strlit("rejected");
    reveal_strlit("pending");
    reveal_strlit("evaluating");
    reveal_strlit("verified");
    reveal_strlit("awaiting_approval");
    reveal_strlit("approved");
    reveal_strlit("deferred");
    assert("rejected"@.len() == 8 && "pending"@.len() == 7 && "evaluating"@.len() == 10
        && "verified"@.len() == 8 && "awaiting_approval"@.len() == 17 && "approved"@.len() == 8
        && "deferred"@.len() == 8);
    assert("rejected"@[0] == 'r' && "verified"@[0] == 'v' && "approved"@[0] == 'a'
        && "deferred"@[0] == 'd');
}

/// Nothing is purged without force that is not at its end, or that others build on; by
/// force anything is.
pub proof fn law_purges_spare_what_is_in_use(skill_id: Seq<char>, plan: PurgePlan, force: bool)
    ensures
        purge_refusal(skill_id, plan, force) is None <==> force || (plan.terminal
            && plan.rerooted@.len() == 0),
{
    assert(text::views(plan.rerooted@).len() == plan.rerooted@.len());
}

/// A skill can be proposed exactly where it was not purged, its predecessor, where it names
/// one, is active, canary or quarantined, no other skill is stored under its id, and it is
/// not proposed already against another predecessor.
pub proof fn law_proposals_need_a_free_id_and_a_live_predecessor(
    artifact: SkillArtifact,
    predecessor: Option<Seq<char>>,
    answers: EnqueueAnswers,
)
    ensures
        enqueue_refusal(artifact, predecessor, answers) is None <==> {
            &&& !answers.tombstoned
            &&& predecessor is Some ==> (answers.predecessor_status matches Some(s) && (s@
                == "active"@ || s@ == "canary"@ || s@ == "quarantined"@))
            &&& answers.existing is Some ==> answers.existing->0@ == artifact@
            &&& answers.proposal is Some ==> text::opt_view(answers.proposal->0.predecessor_id)
                == predecessor
        },
{
}

/// A package is accepted only with at least one suite, each of them valid.
pub proof fn law_packages_bring_valid_suites(suites: Seq<HeldOutSuiteDraft>, label: Seq<char>)
    ensures
        package_fault(suites, label) is None <==> suites.len() > 0 && forall|i: int|
            0 <= i < suites.len() ==> held_out::suite_fault(#[trigger] suites[i]) is None,
{
    lemma_no_suite_fault(suites, 0);
}

proof fn lemma_no_suite_fault(suites: Seq<HeldOutSuiteDraft>, from: int)
    requires
        0 <= from <= suites.len(),
    ensures
        suites_fault_from(suites, from) is None <==> forall|i: int|
            from <= i < suites.len() ==> held_out::suite_fault(#[trigger] suites[i]) is None,
    decreases suites.len() - from,
{
    if from < suites.len() {
        lemma_no_suite_fault(suites, from + 1);
        let s = suites[from];
    }
}

/// A row may be claimed now: it has attempts left, and it waits and its time has come, or
/// the claim on it has run out.
pub open spec fn may_be_claimed(row: DueRow, max_attempts: u32, now: i64) -> bool {
    &&& row.attempt_count < max_attempts
    &&& (row.status@ == "pending"@ && (row.next_attempt_at matches Some(due) ==> due <= now)) || (
    row.status@ == "evaluating"@ && (row.lease_expires_at matches Some(end) && end <= now))
}

proof fn lemma_due_position(rows: Seq<DueRow>, max_attempts: u32, now: i64, n: nat)
    requires
        n <= rows.len(),
    ensures
        match due_position(rows, max_attempts, now, n) {
            None => forall|i: int|
                0 <= i < n ==> !may_be_claimed(#[trigger] rows[i], max_attempts, now),
            Some(k) => 0 <= k < n && may_be_claimed(rows[k], max_attempts, now) && forall|i: int|
                0 <= i < n && may_be_claimed(#[trigger] rows[i], max_attempts, now)
                    ==> rows[k].proposed_at <= rows[i].proposed_at,
        },
    decreases n,
{
    if n > 0 {
        lemma_due_position(rows, max_attempts, now, (n - 1) as nat);
        let row = rows[n - 1];
        assert(is_due(row, max_attempts, now) == may_be_claimed(row, max_attempts, now));
    }
}

/// The next evaluation claims, of the proposals that may be claimed, one that was proposed
/// first; it claims none only where none may be claimed.
pub proof fn law_the_oldest_due_proposal_is_claimed(rows: Seq<DueRow>, max_attempts: u32, now: i64)
    ensures
        match due_position(rows, max_attempts, now, rows.len()) {
            None => forall|i: int|
                0 <= i < rows.len() ==> !may_be_claimed(#[trigger] rows[i], max_attempts, now),
            Some(k) => 0 <= k < rows.len() && may_be_claimed(rows[k], max_attempts, now) && forall|
                i: int,
            |
                0 <= i < rows.len() && may_be_claimed(#[trigger] rows[i], max_attempts, now)
                    ==> rows[k].proposed_at <= rows[i].proposed_at,
        },
{
    lemma_due_position(rows, max_attempts, now, rows.len());
}

/// An import ends as its proposal does: one that awaits approval or has it is reported,
/// one that was rejected, lacks a suite or cannot be verified here is refused, and only one
/// that is still under way is waited for. What is reported is that proposal.
pub proof fn law_imports_end_as_their_proposal_does(
    wait: ImportWait,
    current: ProposalRecord,
    head: Option<Seq<char>>,
    now: i64,
    clock: u64,
)
    ensures
        ({
            let step = wait.next_step(current, head, now, clock);
            let status = current.status;
            let under_way = status is Pending || status is Evaluating;
            &&& status is AwaitingApproval || status is Approved ==> (step matches
                ImportStep::Report(r) && r.status == status && r.blocked_by is None)
            &&& status is Rejected || status is Verified || status is Deferred ==> step is Refuse
            &&& step is Sleep || step is Evaluate ==> under_way && clock < wait.deadline
            &&& step is Evaluate ==> head == Some(wait.proposal_id@)
            &&& under_way && clock >= wait.deadline ==> step is Report
            &&& step matches ImportStep::Report(r) ==> r.skill_id == current.skill_id@
                && r.proposal_id == current.proposal_id@ && r.status == current.status
                && r.reason_code == text::opt_view(current.reason_code) && r.report_id
                == text::opt_view(current.report_id) && r.idempotent == wait.already_present
        }),
{
}

/// A skill is activated only as an approved canary that replaces nothing; one that is
/// active already stays so, and anything else is refused.
pub proof fn law_only_root_canaries_are_activated(
    skill_id: Seq<char>,
    proposal: Option<ProposalRecord>,
    status: Option<Seq<char>>,
)
    ensures
        ({
            let root = proposal is Some && proposal->0.predecessor_id is None;
            let decision = activation(skill_id, proposal, status);
            &&& decision is Activate <==> root && status == Some("canary"@)
            &&& decision is Already <==> root && status == Some("active"@)
        }),
{
    reveal_strlit("canary");
    reveal_strlit("active");
    assert("canary"@[0] == 'c' && "active"@[0] == 'a');
}

/// A replacement is promoted only as an approved canary whose proposal names the
/// predecessor that the revision itself supersedes, and only over a predecessor that is
/// active or quarantined, with a report.
pub proof fn law_only_bound_canaries_are_promoted(
    skill_id: Seq<char>,
    proposal: Option<ProposalRecord>,
    candidate: RevisionState,
    predecessor_id: Seq<char>,
    report_id: Option<String>,
    predecessor: RevisionState,
    generation: u64,
)
    ensures
        promotion(skill_id, proposal, candidate) == (PromotionModel::Promote { predecessor_id })
            <==> {
            &&& proposal is Some && proposal->0.predecessor_id is Some
            &&& proposal->0.predecessor_id->0@ == predecessor_id
            &&& candidate.status is Canary
            &&& candidate.supersedes_id is Some && candidate.supersedes_id->0@ == predecessor_id
        },
        promotion_fault(skill_id, predecessor_id, report_id, candidate, predecessor, generation)
            is None ==> (predecessor.status is Active || predecessor.status is Quarantined)
            && report_id is Some && generation <= i64::MAX && candidate.row_version >= 1
            && predecessor.row_version >= 1 && skill_id.len() > 0,
{
}

/// A plan of a promotion asks for just the pair that was observed, in the versions and the
/// generation that were observed, citing its own evidence and no other.
pub proof fn law_plans_ask_for_what_was_observed(
    plan: PromotionPlan,
    skill_id: Seq<char>,
    predecessor_id: Seq<char>,
    report_id: Seq<char>,
    candidate: RevisionState,
    predecessor: RevisionState,
    generation: i64,
)
    requires
        is_promotion_plan(
            plan,
            skill_id,
            predecessor_id,
            report_id,
            candidate,
            predecessor,
            generation,
        ),
    ensures
        plan.report_id@ == report_id,
        plan.predecessor_from == predecessor.status,
        plan.request.candidate_id@ == skill_id,
        plan.request.predecessor_id@ == predecessor_id,
        plan.request.candidate_row_version == candidate.row_version,
        plan.request.predecessor_row_version == predecessor.row_version,
        ({
            let m = plan.request.snapshot@;
            &&& m.artifact_id == skill_id
            &&& m.predecessor_id == Some(predecessor_id)
            &&& m.artifact_row_version == candidate.row_version
            &&& m.predecessor_row_version == Some(predecessor.row_version)
            &&& m.index_generation == generation
            &&& m.evidence_ids == seq![plan.evidence_id@]
            &&& m.policy_inputs.len() == 1
        }),
{
}

/// Severe feedback contains just what readers can get or are about to: a canary or an
/// active skill is quarantined from where it stands, each for its own reason; anything else
/// is left alone.
pub proof fn law_severe_feedback_contains_what_can_be_retrieved(status: LifecycleStatus)
    ensures
        ({
            let r = containment(Some(status.token()));
            &&& status is Canary ==> r == Ok::<_, Seq<char>>(
                ContainmentModel::Quarantine {
                    from: LifecycleStatus::Canary,
                    reason: QuarantineReason::AuthenticatedCanarySafetyFeedback,
                },
            )
            &&& status is Active ==> r == Ok::<_, Seq<char>>(
                ContainmentModel::Quarantine {
                    from: LifecycleStatus::Active,
                    reason: QuarantineReason::AuthenticatedActiveIntegrityFeedback,
                },
            )
            &&& !(status is Canary) && !(status is Active) ==> (r matches Ok(m) && m is Skipped)
        }),
        containment(None) is Err,
{
    crate::lifecycle::law_status_tokens_round_trip(status);
}

} // verus!
