//! Versioned, bounded, in-memory record/replay host fakes for skill verification.
//!
//! The fakes of file access, process spawning and network access are virtual: they
//! never reach a real file, process or network. Memory and operation counts are
//! capped, and every operation is recorded.

use crate::artifact::{CapabilityManifest, HostCapability, ManifestModel};
use crate::text;
use vstd::prelude::*;
use vstd::string::*;

verus! {

/// Version of the fake host implementation. Bumping this invalidates existing
/// verification reports.
pub const FAKES_VERSION: u32 = 2;

/// Maximum total size of all virtual files in bytes.
pub const FAKES_TOTAL_FILE_BYTES: usize = 10485760;

/// Maximum number of spawn operations.
pub const FAKES_MAX_SPAWN_OPERATIONS: usize = 1000;

/// Maximum number of fetch operations.
pub const FAKES_MAX_FETCH_OPERATIONS: usize = 1000;

/// Maximum number of recorded operations of one verification.
pub const VERIFICATION_TRANSCRIPT_MAX_CALLS: usize = 256;

/// Maximum number of recorded bytes of one verification.
pub const VERIFICATION_TRANSCRIPT_MAX_BYTES: usize = 524288;

/// Maximum number of bytes of one recorded value.
pub const VERIFICATION_TRANSCRIPT_MAX_VALUE_BYTES: usize = 4096;

/// Maximum number of recorded arguments of one spawn.
pub const VERIFICATION_TRANSCRIPT_MAX_ARGS: usize = 64;

/// Bytes that a record takes beside its values.
pub const TRANSCRIPT_RECORD_FIXED_WIRE_BYTES: usize = 256;

/// A number capped at the largest `usize`.
pub open spec fn capped(n: int) -> usize {
    if n > usize::MAX {
        usize::MAX
    } else {
        n as usize
    }
}

fn cap(n: u128) -> (r: usize)
    ensures
        r == capped(n as int),
{
    if n > usize::MAX as u128 {
        usize::MAX
    } else {
        n as usize
    }
}

/// Whole-request budget of recorded operations, which the hosts of a request share: one
/// host holds it at a time and hands it on. It cannot be copied.
///
/// Reservations use a conservative upper bound for JSON escaping and happen before
/// values are recorded. Once the budget is exceeded it stays so.
#[derive(Debug, PartialEq, Eq)]
pub struct VerificationTranscriptBudget {
    pub calls: usize,
    pub bytes: usize,
    pub exceeded: bool,
}

impl VerificationTranscriptBudget {
    /// One more operation of the given size fits.
    pub open spec fn admits(self, wire_bytes: usize) -> bool {
        &&& !self.exceeded
        &&& self.calls + 1 <= VERIFICATION_TRANSCRIPT_MAX_CALLS
        &&& self.bytes + wire_bytes <= VERIFICATION_TRANSCRIPT_MAX_BYTES
    }

    /// The budget after a reservation.
    pub open spec fn reserved(self, wire_bytes: usize) -> VerificationTranscriptBudget {
        if self.admits(wire_bytes) {
            VerificationTranscriptBudget {
                calls: (self.calls + 1) as usize,
                bytes: (self.bytes + wire_bytes) as usize,
                exceeded: false,
            }
        } else {
            VerificationTranscriptBudget { exceeded: true, ..self }
        }
    }

    /// A budget of which nothing is reserved.
    pub open spec fn unspent() -> VerificationTranscriptBudget {
        VerificationTranscriptBudget { calls: 0, bytes: 0, exceeded: false }
    }

    pub fn new() -> (r: VerificationTranscriptBudget)
        ensures
            r == VerificationTranscriptBudget::unspent(),
    {
        VerificationTranscriptBudget { calls: 0, bytes: 0, exceeded: false }
    }

    /// Reserves room for one operation.
    pub fn reserve(&mut self, wire_bytes: usize) -> (r: Result<(), String>)
        ensures
            *final(self) == old(self).reserved(wire_bytes),
            r is Ok <==> old(self).admits(wire_bytes),
            r matches Err(e) ==> e@ == "fake transcript limit exceeded"@,
    {
        let next_calls: usize = self.calls.saturating_add(1);
        let next_bytes: usize = self.bytes.saturating_add(wire_bytes);
        if self.exceeded || next_calls > VERIFICATION_TRANSCRIPT_MAX_CALLS || next_bytes
            > VERIFICATION_TRANSCRIPT_MAX_BYTES {
            self.exceeded = true;
            return Err("fake transcript limit exceeded".to_owned());
        }
        self.calls = next_calls;
        self.bytes = next_bytes;
        Ok(())
    }

    pub fn exceeded(&self) -> (r: bool)
        ensures
            r == self.exceeded,
    {
        self.exceeded
    }
}

/// The bytes that a text takes at most in JSON.
pub open spec fn wire_bound(s: Seq<char>) -> nat {
    6 * text::utf8_len(s) + 2
}

/// The bytes that texts take at most in JSON.
pub open spec fn wire_bounds(s: Seq<Seq<char>>) -> nat
    decreases s.len(),
{
    if s.len() == 0 {
        0
    } else {
        wire_bounds(s.drop_last()) + wire_bound(s.last())
    }
}

fn string_wire_upper_bound(value: &str) -> (r: u128)
    ensures
        r == wire_bound(value@),
        r <= 6 * usize::MAX + 2,
{
    (text::byte_len(value) as u128) * 6 + 2
}

fn strings_wire_upper_bound(values: &Vec<String>) -> (r: usize)
    ensures
        r == capped(wire_bounds(text::views(values@)) as int),
{
    let ghost all = text::views(values@);
    let mut total: usize = 0;
    let mut i: usize = 0;
    proof {
        assert(all.take(0).len() == 0);
    }
    while i < values.len()
        invariant
            i <= values@.len(),
            all == text::views(values@),
            total == capped(wire_bounds(all.take(i as int)) as int),
        decreases values@.len() - i,
    {
        proof {
            assert(all.take(i + 1).drop_last() =~= all.take(i as int));
            assert(all.take(i + 1).last() == values@[i as int]@);
        }
        let bound: u128 = string_wire_upper_bound(&values[i]);
        total = cap(total as u128 + bound);
        i = i + 1;
    }
    assert(all.take(all.len() as int) =~= all);
    total
}

/// A `Result` of texts by its contents.
pub open spec fn result_view(r: Result<String, String>) -> Result<Seq<char>, Seq<char>> {
    match r {
        Ok(v) => Ok(v@),
        Err(e) => Err(e@),
    }
}

/// A `Result` without a value by its contents.
pub open spec fn unit_result_view(r: Result<(), String>) -> Result<(), Seq<char>> {
    match r {
        Ok(()) => Ok(()),
        Err(e) => Err(e@),
    }
}

fn copy_result(r: &Result<String, String>) -> (c: Result<String, String>)
    ensures
        c == *r,
{
    match r {
        Ok(v) => Ok(v.clone()),
        Err(e) => Err(e.clone()),
    }
}

fn copy_unit_result(r: &Result<(), String>) -> (c: Result<(), String>)
    ensures
        unit_result_view(c) == unit_result_view(*r),
{
    match r {
        Ok(()) => Ok(()),
        Err(e) => Err(e.clone()),
    }
}

/// A record of a fake read.
#[derive(Debug, PartialEq, Eq)]
pub struct FakeReadRecord {
    pub path: String,
    pub result: Result<String, String>,
}

/// A record of a fake write.
#[derive(Debug, PartialEq, Eq)]
pub struct FakeWriteRecord {
    pub path: String,
    pub content: String,
    pub result: Result<(), String>,
}

/// A record of a fake spawn; the result is the JSON that the script received.
#[derive(Debug, PartialEq, Eq)]
pub struct FakeSpawnRecord {
    pub program: String,
    pub args: Vec<String>,
    pub result: Result<String, String>,
}

/// A record of a fake fetch; the result is the JSON that the script received.
#[derive(Debug, PartialEq, Eq)]
pub struct FakeFetchRecord {
    pub url: String,
    pub method: String,
    pub result: Result<String, String>,
}

/// The contents of a [`FakeReadRecord`].
#[verifier::ext_equal]
pub struct ReadModel {
    pub path: Seq<char>,
    pub result: Result<Seq<char>, Seq<char>>,
}

/// The contents of a [`FakeWriteRecord`].
#[verifier::ext_equal]
pub struct WriteModel {
    pub path: Seq<char>,
    pub content: Seq<char>,
    pub result: Result<(), Seq<char>>,
}

/// The contents of a [`FakeSpawnRecord`].
#[verifier::ext_equal]
pub struct SpawnModel {
    pub program: Seq<char>,
    pub args: Seq<Seq<char>>,
    pub result: Result<Seq<char>, Seq<char>>,
}

/// The contents of a [`FakeFetchRecord`].
#[verifier::ext_equal]
pub struct FetchModel {
    pub url: Seq<char>,
    pub method: Seq<char>,
    pub result: Result<Seq<char>, Seq<char>>,
}

impl View for FakeReadRecord {
    type V = ReadModel;

    open spec fn view(&self) -> ReadModel {
        ReadModel { path: self.path@, result: result_view(self.result) }
    }
}

impl View for FakeWriteRecord {
    type V = WriteModel;

    open spec fn view(&self) -> WriteModel {
        WriteModel {
            path: self.path@,
            content: self.content@,
            result: unit_result_view(self.result),
        }
    }
}

impl View for FakeSpawnRecord {
    type V = SpawnModel;

    open spec fn view(&self) -> SpawnModel {
        SpawnModel {
            program: self.program@,
            args: text::views(self.args@),
            result: result_view(self.result),
        }
    }
}

impl View for FakeFetchRecord {
    type V = FetchModel;

    open spec fn view(&self) -> FetchModel {
        FetchModel { url: self.url@, method: self.method@, result: result_view(self.result) }
    }
}

/// Transcript of all operations during verification.
#[derive(Debug, PartialEq, Eq)]
pub struct FakeTranscript {
    pub reads: Vec<FakeReadRecord>,
    pub writes: Vec<FakeWriteRecord>,
    pub spawns: Vec<FakeSpawnRecord>,
    pub fetches: Vec<FakeFetchRecord>,
}

/// The contents of a [`FakeTranscript`].
#[verifier::ext_equal]
pub struct TranscriptModel {
    pub reads: Seq<ReadModel>,
    pub writes: Seq<WriteModel>,
    pub spawns: Seq<SpawnModel>,
    pub fetches: Seq<FetchModel>,
}

pub open spec fn read_views(s: Seq<FakeReadRecord>) -> Seq<ReadModel> {
    s.map_values(|r: FakeReadRecord| r@)
}

pub open spec fn write_views(s: Seq<FakeWriteRecord>) -> Seq<WriteModel> {
    s.map_values(|r: FakeWriteRecord| r@)
}

pub open spec fn spawn_views(s: Seq<FakeSpawnRecord>) -> Seq<SpawnModel> {
    s.map_values(|r: FakeSpawnRecord| r@)
}

pub open spec fn fetch_views(s: Seq<FakeFetchRecord>) -> Seq<FetchModel> {
    s.map_values(|r: FakeFetchRecord| r@)
}

impl View for FakeTranscript {
    type V = TranscriptModel;

    open spec fn view(&self) -> TranscriptModel {
        TranscriptModel {
            reads: read_views(self.reads@),
            writes: write_views(self.writes@),
            spawns: spawn_views(self.spawns@),
            fetches: fetch_views(self.fetches@),
        }
    }
}

/// The first `n` items, or all where there are fewer.
pub open spec fn at_most<A>(s: Seq<A>, n: int) -> Seq<A> {
    if s.len() <= n {
        s
    } else {
        s.take(n)
    }
}

/// A text cut to the size of one recorded value.
pub open spec fn cut(s: Seq<char>) -> Seq<char> {
    text::fitting_prefix(s, VERIFICATION_TRANSCRIPT_MAX_VALUE_BYTES as nat)
}

/// A result with its text cut.
pub open spec fn cut_result(r: Result<Seq<char>, Seq<char>>) -> Result<Seq<char>, Seq<char>> {
    match r {
        Ok(v) => Ok(cut(v)),
        Err(e) => Err(cut(e)),
    }
}

pub open spec fn cut_read(r: ReadModel) -> ReadModel {
    ReadModel { path: cut(r.path), result: cut_result(r.result) }
}

pub open spec fn cut_write(r: WriteModel) -> WriteModel {
    WriteModel {
        path: cut(r.path),
        content: cut(r.content),
        result: match r.result {
            Ok(()) => Ok(()),
            Err(e) => Err(cut(e)),
        },
    }
}

pub open spec fn cut_spawn(r: SpawnModel) -> SpawnModel {
    SpawnModel {
        program: cut(r.program),
        args: at_most(r.args, VERIFICATION_TRANSCRIPT_MAX_ARGS as int).map_values(
            |s: Seq<char>| cut(s),
        ),
        result: cut_result(r.result),
    }
}

pub open spec fn cut_fetch(r: FetchModel) -> FetchModel {
    FetchModel { url: cut(r.url), method: cut(r.method), result: cut_result(r.result) }
}

impl TranscriptModel {
    pub open spec fn calls(self) -> nat {
        self.reads.len() + self.writes.len() + self.spawns.len() + self.fetches.len()
    }

    /// The first `n` operations, counted over reads, writes, spawns and fetches in
    /// that order.
    pub open spec fn limited(self, n: int) -> TranscriptModel {
        let after_reads = if self.reads.len() <= n { n - self.reads.len() } else { 0 };
        let after_writes = if self.writes.len() <= after_reads {
            after_reads - self.writes.len()
        } else {
            0
        };
        let after_spawns = if self.spawns.len() <= after_writes {
            after_writes - self.spawns.len()
        } else {
            0
        };
        TranscriptModel {
            reads: at_most(self.reads, n),
            writes: at_most(self.writes, after_reads),
            spawns: at_most(self.spawns, after_writes),
            fetches: at_most(self.fetches, after_spawns),
        }
    }

    /// The transcript with every value cut.
    pub open spec fn cut_values(self) -> TranscriptModel {
        TranscriptModel {
            reads: self.reads.map_values(|r: ReadModel| cut_read(r)),
            writes: self.writes.map_values(|r: WriteModel| cut_write(r)),
            spawns: self.spawns.map_values(|r: SpawnModel| cut_spawn(r)),
            fetches: self.fetches.map_values(|r: FetchModel| cut_fetch(r)),
        }
    }
}

/// Keeps at most as many records as remain and counts them off.
fn limit_records<T>(records: &mut Vec<T>, remaining: &mut usize)
    ensures
        final(records)@ == at_most(old(records)@, *old(remaining) as int),
        *final(remaining) == *old(remaining) - final(records)@.len(),
{
    if records.len() > *remaining {
        records.truncate(*remaining);
        assert(records@ =~= old(records)@.take(*old(remaining) as int));
    }
    *remaining = *remaining - records.len();
}

/// Cuts a text to at most `max_bytes` bytes, between characters.
pub fn truncate_utf8(value: &mut String, max_bytes: usize)
    ensures
        final(value)@ == text::fitting_prefix(old(value)@, max_bytes as nat),
{
    let shorter = text::truncate_to_bytes(value.as_str(), max_bytes);
    *value = shorter;
}

fn cut_text(value: &str) -> (r: String)
    ensures
        r@ == cut(value@),
{
    text::truncate_to_bytes(value, VERIFICATION_TRANSCRIPT_MAX_VALUE_BYTES)
}

fn truncate_result(result: &Result<String, String>) -> (r: Result<String, String>)
    ensures
        result_view(r) == cut_result(result_view(*result)),
{
    match result {
        Ok(value) => Ok(cut_text(value)),
        Err(value) => Err(cut_text(value)),
    }
}

impl FakeTranscript {
    /// A transcript without operations.
    pub fn new() -> (r: FakeTranscript)
        ensures
            r@ == (TranscriptModel {
                reads: Seq::empty(),
                writes: Seq::empty(),
                spawns: Seq::empty(),
                fetches: Seq::empty(),
            }),
    {
        let r = FakeTranscript {
            reads: Vec::new(),
            writes: Vec::new(),
            spawns: Vec::new(),
            fetches: Vec::new(),
        };
        proof {
            assert(r@.reads =~= Seq::empty());
            assert(r@.writes =~= Seq::empty());
            assert(r@.spawns =~= Seq::empty());
            assert(r@.fetches =~= Seq::empty());
        }
        r
    }

    /// Whether this transcript holds no operations.
    pub fn is_empty(&self) -> (r: bool)
        ensures
            r == (self@.calls() == 0),
    {
        self.reads.is_empty() && self.writes.is_empty() && self.spawns.is_empty()
            && self.fetches.is_empty()
    }

    /// Adds the operations of another transcript at the end.
    pub fn append(&mut self, other: FakeTranscript)
        ensures
            final(self)@ == (TranscriptModel {
                reads: old(self)@.reads + other@.reads,
                writes: old(self)@.writes + other@.writes,
                spawns: old(self)@.spawns + other@.spawns,
                fetches: old(self)@.fetches + other@.fetches,
            }),
    {
        let ghost before = self@;
        let ghost added = other@;
        let mut other = other;
        self.reads.append(&mut other.reads);
        self.writes.append(&mut other.writes);
        self.spawns.append(&mut other.spawns);
        self.fetches.append(&mut other.fetches);
        proof {
            assert(self@.reads =~= before.reads + added.reads);
            assert(self@.writes =~= before.writes + added.writes);
            assert(self@.spawns =~= before.spawns + added.spawns);
            assert(self@.fetches =~= before.fetches + added.fetches);
        }
    }

    /// A transcript that fits the wire: at most so many operations, every value cut.
    ///
    /// Callers must separately reject a transcript whose operation count exceeds the
    /// limit, so that cutting cannot turn it into an apparent match.
    pub fn bounded_for_wire(self) -> (r: FakeTranscript)
        ensures
            r@ == self@.limited(VERIFICATION_TRANSCRIPT_MAX_CALLS as int).cut_values(),
    {
        let ghost given = self@;
        let mut limited = self;
        let mut remaining: usize = VERIFICATION_TRANSCRIPT_MAX_CALLS;
        limited.limit_call_count(&mut remaining);
        let ghost m = limited@;
        let mut out = FakeTranscript::new();
        let mut i: usize = 0;
        while i < limited.reads.len()
            invariant
                i <= limited.reads@.len(),
                m == limited@,
                out@ == (TranscriptModel {
                    reads: m.cut_values().reads.take(i as int),
                    writes: Seq::empty(),
                    spawns: Seq::empty(),
                    fetches: Seq::empty(),
                }),
            decreases limited.reads@.len() - i,
        {
            let ghost before = out@;
            assert(m.reads[i as int] == limited.reads@[i as int]@);
            let record = &limited.reads[i];
            let item = FakeReadRecord {
                path: cut_text(&record.path),
                result: truncate_result(&record.result),
            };
            out.reads.push(item);
            proof {
                assert(item@ == cut_read(m.reads[i as int]));
                assert(out@.reads =~= before.reads.push(item@));
                assert(out@.reads =~= m.cut_values().reads.take(i + 1));
            }
            i = i + 1;
        }
        proof {
            assert(m.cut_values().reads.take(m.reads.len() as int) =~= m.cut_values().reads);
        }
        let mut j: usize = 0;
        while j < limited.writes.len()
            invariant
                j <= limited.writes@.len(),
                m == limited@,
                out@ == (TranscriptModel {
                    reads: m.cut_values().reads,
                    writes: m.cut_values().writes.take(j as int),
                    spawns: Seq::empty(),
                    fetches: Seq::empty(),
                }),
            decreases limited.writes@.len() - j,
        {
            let ghost before = out@;
            assert(m.writes[j as int] == limited.writes@[j as int]@);
            let record = &limited.writes[j];
            let item = FakeWriteRecord {
                path: cut_text(&record.path),
                content: cut_text(&record.content),
                result: match &record.result {
                    Ok(()) => Ok(()),
                    Err(e) => Err(cut_text(e)),
                },
            };
            out.writes.push(item);
            proof {
                assert(item@ == cut_write(m.writes[j as int]));
                assert(out@.writes =~= before.writes.push(item@));
                assert(out@.writes =~= m.cut_values().writes.take(j + 1));
            }
            j = j + 1;
        }
        proof {
            assert(m.cut_values().writes.take(m.writes.len() as int) =~= m.cut_values().writes);
        }
        let mut k: usize = 0;
        while k < limited.spawns.len()
            invariant
                k <= limited.spawns@.len(),
                m == limited@,
                out@ == (TranscriptModel {
                    reads: m.cut_values().reads,
                    writes: m.cut_values().writes,
                    spawns: m.cut_values().spawns.take(k as int),
                    fetches: Seq::empty(),
                }),
            decreases limited.spawns@.len() - k,
        {
            let ghost before = out@;
            assert(m.spawns[k as int] == limited.spawns@[k as int]@);
            let item = cut_spawn_record(&limited.spawns[k]);
            out.spawns.push(item);
            proof {
                assert(out@.spawns =~= before.spawns.push(item@));
                assert(out@.spawns =~= m.cut_values().spawns.take(k + 1));
            }
            k = k + 1;
        }
        proof {
            assert(m.cut_values().spawns.take(m.spawns.len() as int) =~= m.cut_values().spawns);
        }
        let mut l: usize = 0;
        while l < limited.fetches.len()
            invariant
                l <= limited.fetches@.len(),
                m == limited@,
                out@ == (TranscriptModel {
                    reads: m.cut_values().reads,
                    writes: m.cut_values().writes,
                    spawns: m.cut_values().spawns,
                    fetches: m.cut_values().fetches.take(l as int),
                }),
            decreases limited.fetches@.len() - l,
        {
            let ghost before = out@;
            assert(m.fetches[l as int] == limited.fetches@[l as int]@);
            let record = &limited.fetches[l];
            let item = FakeFetchRecord {
                url: cut_text(&record.url),
                method: cut_text(&record.method),
                result: truncate_result(&record.result),
            };
            out.fetches.push(item);
            proof {
                assert(item@ == cut_fetch(m.fetches[l as int]));
                assert(out@.fetches =~= before.fetches.push(item@));
                assert(out@.fetches =~= m.cut_values().fetches.take(l + 1));
            }
            l = l + 1;
        }
        proof {
            assert(m.cut_values().fetches.take(m.fetches.len() as int) =~= m.cut_values().fetches);
        }
        out
    }

    /// Whether there are more operations than the wire takes.
    pub fn exceeds_wire_call_limit(&self) -> (r: bool)
        ensures
            r == (self@.calls() > VERIFICATION_TRANSCRIPT_MAX_CALLS),
    {
        self.call_count() > VERIFICATION_TRANSCRIPT_MAX_CALLS
    }

    /// How many operations there are.
    pub fn call_count(&self) -> (r: usize)
        ensures
            r == capped(self@.calls() as int),
    {
        self.reads.len().saturating_add(self.writes.len()).saturating_add(
            self.spawns.len(),
        ).saturating_add(self.fetches.len())
    }

    /// Keeps the first operations, as many as remain, and counts them off.
    pub fn limit_call_count(&mut self, remaining: &mut usize)
        ensures
            final(self)@ == old(self)@.limited(*old(remaining) as int),
            *final(remaining) == *old(remaining) - final(self)@.calls(),
    {
        let ghost before = self@;
        let ghost n = *remaining as int;
        limit_records(&mut self.reads, remaining);
        assert(self@.reads =~= at_most(before.reads, n));
        let ghost n1 = *remaining as int;
        limit_records(&mut self.writes, remaining);
        assert(self@.writes =~= at_most(before.writes, n1));
        let ghost n2 = *remaining as int;
        limit_records(&mut self.spawns, remaining);
        assert(self@.spawns =~= at_most(before.spawns, n2));
        let ghost n3 = *remaining as int;
        limit_records(&mut self.fetches, remaining);
        assert(self@.fetches =~= at_most(before.fetches, n3));
    }

    /// A copy of the transcript.
    pub fn copy(&self) -> (r: FakeTranscript)
        ensures
            r@ == self@,
    {
        let mut out = FakeTranscript::new();
        let ghost m = self@;
        let mut i: usize = 0;
        while i < self.reads.len()
            invariant
                i <= self.reads@.len(),
                m == self@,
                out@ == (TranscriptModel {
                    reads: m.reads.take(i as int),
                    writes: Seq::empty(),
                    spawns: Seq::empty(),
                    fetches: Seq::empty(),
                }),
            decreases self.reads@.len() - i,
        {
            let ghost before = out@;
            assert(m.reads[i as int] == self.reads@[i as int]@);
            let item = FakeReadRecord {
                path: self.reads[i].path.clone(),
                result: copy_result(&self.reads[i].result),
            };
            out.reads.push(item);
            proof {
                assert(out@.reads =~= before.reads.push(item@));
                assert(out@.reads =~= m.reads.take(i + 1));
            }
            i = i + 1;
        }
        assert(m.reads.take(m.reads.len() as int) =~= m.reads);
        let mut j: usize = 0;
        while j < self.writes.len()
            invariant
                j <= self.writes@.len(),
                m == self@,
                out@ == (TranscriptModel {
                    reads: m.reads,
                    writes: m.writes.take(j as int),
                    spawns: Seq::empty(),
                    fetches: Seq::empty(),
                }),
            decreases self.writes@.len() - j,
        {
            let ghost before = out@;
            assert(m.writes[j as int] == self.writes@[j as int]@);
            let item = FakeWriteRecord {
                path: self.writes[j].path.clone(),
                content: self.writes[j].content.clone(),
                result: copy_unit_result(&self.writes[j].result),
            };
            out.writes.push(item);
            proof {
                assert(out@.writes =~= before.writes.push(item@));
                assert(out@.writes =~= m.writes.take(j + 1));
            }
            j = j + 1;
        }
        assert(m.writes.take(m.writes.len() as int) =~= m.writes);
        let mut k: usize = 0;
        while k < self.spawns.len()
            invariant
                k <= self.spawns@.len(),
                m == self@,
                out@ == (TranscriptModel {
                    reads: m.reads,
                    writes: m.writes,
                    spawns: m.spawns.take(k as int),
                    fetches: Seq::empty(),
                }),
            decreases self.spawns@.len() - k,
        {
            let ghost before = out@;
            assert(m.spawns[k as int] == self.spawns@[k as int]@);
            let item = FakeSpawnRecord {
                program: self.spawns[k].program.clone(),
                args: text::clone_strings(&self.spawns[k].args),
                result: copy_result(&self.spawns[k].result),
            };
            out.spawns.push(item);
            proof {
                assert(out@.spawns =~= before.spawns.push(item@));
                assert(out@.spawns =~= m.spawns.take(k + 1));
            }
            k = k + 1;
        }
        assert(m.spawns.take(m.spawns.len() as int) =~= m.spawns);
        let mut l: usize = 0;
        while l < self.fetches.len()
            invariant
                l <= self.fetches@.len(),
                m == self@,
                out@ == (TranscriptModel {
                    reads: m.reads,
                    writes: m.writes,
                    spawns: m.spawns,
                    fetches: m.fetches.take(l as int),
                }),
            decreases self.fetches@.len() - l,
        {
            let ghost before = out@;
            assert(m.fetches[l as int] == self.fetches@[l as int]@);
            let item = FakeFetchRecord {
                url: self.fetches[l].url.clone(),
                method: self.fetches[l].method.clone(),
                result: copy_result(&self.fetches[l].result),
            };
            out.fetches.push(item);
            proof {
                assert(out@.fetches =~= before.fetches.push(item@));
                assert(out@.fetches =~= m.fetches.take(l + 1));
            }
            l = l + 1;
        }
        assert(m.fetches.take(m.fetches.len() as int) =~= m.fetches);
        out
    }
}

fn cut_spawn_record(record: &FakeSpawnRecord) -> (r: FakeSpawnRecord)
    ensures
        r@ == cut_spawn(record@),
{
    let n: usize = if record.args.len() > VERIFICATION_TRANSCRIPT_MAX_ARGS {
        VERIFICATION_TRANSCRIPT_MAX_ARGS
    } else {
        record.args.len()
    };
    let ghost wanted = cut_spawn(record@).args;
    let mut args: Vec<String> = Vec::new();
    let mut i: usize = 0;
    while i < n
        invariant
            i <= n,
            n == if record.args@.len() > VERIFICATION_TRANSCRIPT_MAX_ARGS {
                VERIFICATION_TRANSCRIPT_MAX_ARGS
            } else {
                record.args@.len() as usize
            },
            wanted == cut_spawn(record@).args,
            wanted.len() == n,
            text::views(args@) =~= wanted.take(i as int),
        decreases n - i,
    {
        let ghost before = text::views(args@);
        let arg = cut_text(&record.args[i]);
        assert(record@.args[i as int] == record.args@[i as int]@);
        assert(wanted[i as int] == arg@);
        args.push(arg);
        assert(text::views(args@) =~= before.push(arg@));
        i = i + 1;
    }
    assert(wanted.take(n as int) =~= wanted);
    FakeSpawnRecord {
        program: cut_text(&record.program),
        args,
        result: truncate_result(&record.result),
    }
}

/// A virtual file.
#[derive(Debug, Clone, PartialEq, Eq)]
pub struct VirtualFile {
    pub path: String,
    pub content: String,
}

/// The contents of a [`VirtualFile`].
#[verifier::ext_equal]
pub struct FileModel {
    pub path: Seq<char>,
    pub content: Seq<char>,
}

impl View for VirtualFile {
    type V = FileModel;

    open spec fn view(&self) -> FileModel {
        FileModel { path: self.path@, content: self.content@ }
    }
}

pub open spec fn file_views(s: Seq<VirtualFile>) -> Seq<FileModel> {
    s.map_values(|f: VirtualFile| f@)
}

pub open spec fn file_at(path: Seq<char>) -> spec_fn(FileModel) -> bool {
    |f: FileModel| f.path == path
}

/// The content of the file at a path.
pub open spec fn content_of(files: Seq<FileModel>, path: Seq<char>) -> Option<Seq<char>> {
    match crate::store::position(files, file_at(path)) {
        Some(i) => Some(files[i].content),
        None => None,
    }
}

/// The size of the file at a path; nothing where there is none.
pub open spec fn size_of(files: Seq<FileModel>, path: Seq<char>) -> nat {
    match content_of(files, path) {
        Some(content) => text::utf8_len(content),
        None => 0,
    }
}

/// The size of all files.
pub open spec fn total_size(files: Seq<FileModel>) -> nat
    decreases files.len(),
{
    if files.len() == 0 {
        0
    } else {
        total_size(files.drop_last()) + text::utf8_len(files.last().content)
    }
}

/// The files with one written.
pub open spec fn with_file(files: Seq<FileModel>, path: Seq<char>, content: Seq<char>) -> Seq<
    FileModel,
> {
    match crate::store::position(files, file_at(path)) {
        Some(i) => files.update(i, FileModel { path: files[i].path, content }),
        None => files.push(FileModel { path, content }),
    }
}

/// The total that a write would reach.
pub open spec fn total_after(
    files: Seq<FileModel>,
    total: usize,
    path: Seq<char>,
    content: Seq<char>,
) -> nat {
    if total >= size_of(files, path) {
        (total - size_of(files, path) + text::utf8_len(content)) as nat
    } else {
        text::utf8_len(content)
    }
}

/// The sentence that refuses a write.
pub open spec fn write_refusal(total: nat) -> Seq<char> {
    "Write would exceed file limit: "@ + text::decimal(total) + " > "@ + text::decimal(
        FAKES_TOTAL_FILE_BYTES as nat,
    ) + " bytes"@
}

/// Fake hosts for one artifact verification. Unsupported capabilities fail
/// deterministically.
#[derive(Debug)]
pub struct FakeHostGlobals {
    pub files: Vec<VirtualFile>,
    pub total_file_bytes: usize,
    pub transcript: FakeTranscript,
    pub transcript_budget: VerificationTranscriptBudget,
    pub manifest: CapabilityManifest,
}

/// The contents of a [`FakeHostGlobals`].
#[verifier::ext_equal]
pub struct HostModel {
    pub files: Seq<FileModel>,
    pub total_file_bytes: usize,
    pub transcript: TranscriptModel,
    pub transcript_budget: VerificationTranscriptBudget,
    pub manifest: ManifestModel,
}

impl View for FakeHostGlobals {
    type V = HostModel;

    open spec fn view(&self) -> HostModel {
        HostModel {
            files: file_views(self.files@),
            total_file_bytes: self.total_file_bytes,
            transcript: self.transcript@,
            transcript_budget: self.transcript_budget,
            manifest: self.manifest@,
        }
    }
}

impl HostModel {
    /// Paths are distinct, the total is the sum of the files and within its limit.
    pub open spec fn well_formed(self) -> bool {
        &&& forall|i: int, j: int|
            0 <= i < j < self.files.len() ==> (#[trigger] self.files[i]).path != (
            #[trigger] self.files[j]).path
        &&& self.total_file_bytes == total_size(self.files)
        &&& self.total_file_bytes <= FAKES_TOTAL_FILE_BYTES
    }

    /// What storing a file comes to.
    pub open spec fn store(self, path: Seq<char>, content: Seq<char>) -> (
        Result<(), Seq<char>>,
        HostModel,
    ) {
        let total = total_after(self.files, self.total_file_bytes, path, content);
        if total > FAKES_TOTAL_FILE_BYTES {
            (Err(write_refusal(total)), self)
        } else {
            (
                Ok(()),
                HostModel {
                    files: with_file(self.files, path, content),
                    total_file_bytes: total as usize,
                    ..self
                },
            )
        }
    }

    /// What providing virtual data comes to.
    pub open spec fn seed(self, path: Seq<char>, content: Seq<char>) -> (
        Result<(), Seq<char>>,
        HostModel,
    ) {
        if self.manifest.allows(HostCapability::ReadFile) {
            self.store(path, content)
        } else {
            (Err("read_file not declared in capability manifest"@), self)
        }
    }

    /// The host with one operation counted.
    pub open spec fn with_budget(self, wire_bytes: usize) -> HostModel {
        HostModel { transcript_budget: self.transcript_budget.reserved(wire_bytes), ..self }
    }

    /// What reading a file comes to.
    pub open spec fn read(self, path: Seq<char>) -> (Result<Seq<char>, Seq<char>>, HostModel) {
        let wire = capped(
            TRANSCRIPT_RECORD_FIXED_WIRE_BYTES + 2 * wire_bound(path) + 6 * size_of(
                self.files,
                path,
            ),
        );
        if !self.manifest.allows(HostCapability::ReadFile) {
            (Err("read_file not declared in capability manifest"@), self)
        } else if !self.transcript_budget.admits(wire) {
            (Err("fake transcript limit exceeded"@), self.with_budget(wire))
        } else {
            let result = match content_of(self.files, path) {
                Some(content) => Ok(content),
                None => Err("File not found: "@ + path),
            };
            let counted = self.with_budget(wire);
            (
                result,
                HostModel {
                    transcript: TranscriptModel {
                        reads: self.transcript.reads.push(ReadModel { path, result }),
                        ..self.transcript
                    },
                    ..counted
                },
            )
        }
    }

    /// What writing a file comes to.
    pub open spec fn write(self, path: Seq<char>, content: Seq<char>) -> (
        Result<(), Seq<char>>,
        HostModel,
    ) {
        let wire = capped(
            TRANSCRIPT_RECORD_FIXED_WIRE_BYTES + wire_bound(path) + wire_bound(content),
        );
        if !self.manifest.allows(HostCapability::WriteFile) {
            (Err("write_file not declared in capability manifest"@), self)
        } else if !self.transcript_budget.admits(wire) {
            (Err("fake transcript limit exceeded"@), self.with_budget(wire))
        } else {
            let (result, stored) = self.with_budget(wire).store(path, content);
            (
                result,
                HostModel {
                    transcript: TranscriptModel {
                        writes: self.transcript.writes.push(WriteModel { path, content, result }),
                        ..self.transcript
                    },
                    ..stored
                },
            )
        }
    }

    /// What spawning a process comes to: it always succeeds with empty output.
    pub open spec fn spawn(self, program: Seq<char>, args: Seq<Seq<char>>) -> (
        Result<Seq<char>, Seq<char>>,
        HostModel,
    ) {
        let wire = capped(
            TRANSCRIPT_RECORD_FIXED_WIRE_BYTES + wire_bound(program) + wire_bounds(args),
        );
        if !self.manifest.allows(HostCapability::Spawn) {
            (Err("spawn not declared in capability manifest"@), self)
        } else if !self.transcript_budget.admits(wire) {
            (Err("fake transcript limit exceeded"@), self.with_budget(wire))
        } else if self.transcript.spawns.len() >= FAKES_MAX_SPAWN_OPERATIONS {
            (Err("spawn limit exceeded"@), self.with_budget(wire))
        } else {
            let result = Ok::<Seq<char>, Seq<char>>(
                "{\"stdout\":\"\",\"stderr\":\"\",\"code\":0,\"timed_out\":false,\"stdout_truncated\":false,\"stderr_truncated\":false}"@,
            );
            let counted = self.with_budget(wire);
            (
                result,
                HostModel {
                    transcript: TranscriptModel {
                        spawns: self.transcript.spawns.push(SpawnModel { program, args, result }),
                        ..self.transcript
                    },
                    ..counted
                },
            )
        }
    }

    /// What fetching a resource comes to: an empty object.
    pub open spec fn fetch(self, url: Seq<char>, method: Seq<char>) -> (
        Result<Seq<char>, Seq<char>>,
        HostModel,
    ) {
        let wire = capped(
            TRANSCRIPT_RECORD_FIXED_WIRE_BYTES + wire_bound(url) + wire_bound(method),
        );
        if !self.manifest.allows(HostCapability::Fetch) {
            (Err("fetch not declared in capability manifest"@), self)
        } else if !self.transcript_budget.admits(wire) {
            (Err("fake transcript limit exceeded"@), self.with_budget(wire))
        } else if self.transcript.fetches.len() >= FAKES_MAX_FETCH_OPERATIONS {
            (Err("fetch limit exceeded"@), self.with_budget(wire))
        } else {
            let result = Ok::<Seq<char>, Seq<char>>("{}"@);
            let counted = self.with_budget(wire);
            (
                result,
                HostModel {
                    transcript: TranscriptModel {
                        fetches: self.transcript.fetches.push(FetchModel { url, method, result }),
                        ..self.transcript
                    },
                    ..counted
                },
            )
        }
    }
}

impl FakeHostGlobals {
    /// Fresh hosts for a manifest.
    pub fn new(manifest: CapabilityManifest) -> (r: FakeHostGlobals)
        ensures
            r@ == fresh_host(manifest@, VerificationTranscriptBudget::unspent()),
            r@.well_formed(),
    {
        FakeHostGlobals::with_transcript_budget(manifest, VerificationTranscriptBudget::new())
    }

    /// Fresh hosts for a manifest that go on with a budget.
    pub fn with_transcript_budget(
        manifest: CapabilityManifest,
        transcript_budget: VerificationTranscriptBudget,
    ) -> (r: FakeHostGlobals)
        ensures
            r@ == fresh_host(manifest@, transcript_budget),
            r@.well_formed(),
    {
        let r = FakeHostGlobals {
            files: Vec::new(),
            total_file_bytes: 0,
            transcript: FakeTranscript::new(),
            transcript_budget,
            manifest,
        };
        assert(r@.files =~= Seq::empty());
        r
    }

    /// Whether `capability` is declared in the manifest.
    pub fn allows(&self, capability: HostCapability) -> (r: bool)
        ensures
            r == self@.manifest.allows(capability),
    {
        self.manifest.allows(capability)
    }

    /// A copy of the transcript.
    pub fn transcript(&self) -> (r: FakeTranscript)
        ensures
            r@ == self@.transcript,
    {
        self.transcript.copy()
    }

    /// Ends the hosts: what they recorded, and the budget for those that come next.
    pub fn finish(self) -> (r: (FakeTranscript, VerificationTranscriptBudget))
        ensures
            r.0@ == self@.transcript,
            r.1 == self@.transcript_budget,
    {
        (self.transcript, self.transcript_budget)
    }

    fn find_file(&self, path: &str) -> (r: Option<usize>)
        ensures
            match r {
                Some(i) => i < self.files@.len() && crate::store::position(
                    self@.files,
                    file_at(path@),
                ) == Some(i as int),
                None => crate::store::position(self@.files, file_at(path@)) is None,
            },
    {
        let ghost p = file_at(path@);
        let mut i: usize = 0;
        while i < self.files.len()
            invariant
                i <= self.files@.len(),
                p == file_at(path@),
                forall|j: int| 0 <= j < i ==> !p(#[trigger] self@.files[j]),
            decreases self.files@.len() - i,
        {
            assert(self@.files[i as int] == self.files@[i as int]@);
            if text::same(&self.files[i].path, path) {
                proof {
                    crate::store::lemma_position_found(self@.files, p, i as int);
                }
                return Some(i);
            }
            i = i + 1;
        }
        proof {
            crate::store::lemma_position_missing(self@.files, p);
        }
        None
    }

    fn store_file(&mut self, path: &str, content: &str) -> (r: Result<(), String>)
        ensures
            unit_result_view(r) == old(self)@.store(path@, content@).0,
            final(self)@ == old(self)@.store(path@, content@).1,
            old(self)@.well_formed() ==> final(self)@.well_formed(),
    {
        let ghost before = self@;
        let new_size: usize = text::byte_len(content);
        let found = self.find_file(path);
        let old_size: usize = match found {
            Some(i) => {
                assert(self@.files[i as int] == self.files@[i as int]@);
                text::byte_len(&self.files[i].content)
            },
            None => 0,
        };
        let new_total: u128 = if self.total_file_bytes >= old_size {
            (self.total_file_bytes - old_size) as u128 + new_size as u128
        } else {
            new_size as u128
        };
        if new_total > FAKES_TOTAL_FILE_BYTES as u128 {
            let reached = text::render_u128(new_total);
            let limit = text::render_u64(FAKES_TOTAL_FILE_BYTES as u64);
            let mut refusal = text::join3("Write would exceed file limit: ", &reached, " > ");
            refusal.append(&limit);
            refusal.append(" bytes");
            return Err(refusal);
        }
        self.total_file_bytes = new_total as usize;
        match found {
            Some(i) => {
                proof {
                    assert(crate::store::first_match(before.files, file_at(path@), i as int));
                }
                let file = &mut self.files[i];
                file.content = content.to_owned();
                proof {
                    assert(self@.files =~= with_file(before.files, path@, content@));
                    if before.well_formed() {
                        assert forall|k: int, l: int| 0 <= k < l < self@.files.len() implies (
                        #[trigger] self@.files[k]).path != (#[trigger] self@.files[l]).path by {
                            assert(before.files[k].path != before.files[l].path);
                        }
                        text::lemma_utf8_len_empty();
                        lemma_total_after_update(
                            before.files,
                            i as int,
                            FileModel { path: Seq::empty(), content: Seq::empty() },
                        );
                        lemma_total_after_update(
                            before.files,
                            i as int,
                            FileModel { path: before.files[i as int].path, content: content@ },
                        );
                    }
                }
            },
            None => {
                let file = VirtualFile { path: path.to_owned(), content: content.to_owned() };
                self.files.push(file);
                proof {
                    assert(self@.files =~= with_file(before.files, path@, content@));
                    assert(self@.files.drop_last() =~= before.files);
                    if before.well_formed() {
                        assert forall|k: int, l: int| 0 <= k < l < self@.files.len() implies (
                        #[trigger] self@.files[k]).path != (#[trigger] self@.files[l]).path by {
                            if l == before.files.len() && before.files[k].path == path@ {
                                crate::store::lemma_some_match_is_found(
                                    before.files,
                                    file_at(path@),
                                    k,
                                );
                            }
                        }
                    }
                }
            },
        }
        Ok(())
    }

    /// Provides virtual data without recording an operation.
    pub fn seed_file(&mut self, path: &str, content: &str) -> (r: Result<(), String>)
        ensures
            unit_result_view(r) == old(self)@.seed(path@, content@).0,
            final(self)@ == old(self)@.seed(path@, content@).1,
            old(self)@.well_formed() ==> final(self)@.well_formed(),
    {
        if !self.manifest.allows(HostCapability::ReadFile) {
            return Err("read_file not declared in capability manifest".to_owned());
        }
        self.store_file(path, content)
    }

    /// Reads a virtual file.
    pub fn read_file(&mut self, path: &str) -> (r: Result<String, String>)
        ensures
            result_view(r) == old(self)@.read(path@).0,
            final(self)@ == old(self)@.read(path@).1,
            old(self)@.well_formed() ==> final(self)@.well_formed(),
    {
        if !self.manifest.allows(HostCapability::ReadFile) {
            return Err("read_file not declared in capability manifest".to_owned());
        }
        let ghost before = self@;
        let found = self.find_file(path);
        let content_bytes: usize = match found {
            Some(i) => {
                assert(self@.files[i as int] == self.files@[i as int]@);
                text::byte_len(&self.files[i].content)
            },
            None => 0,
        };
        let bound: u128 = string_wire_upper_bound(path);
        let wire: usize = cap(
            TRANSCRIPT_RECORD_FIXED_WIRE_BYTES as u128 + bound * 2 + (content_bytes as u128) * 6,
        );
        match self.transcript_budget.reserve(wire) {
            Ok(()) => {},
            Err(e) => {
                return Err(e);
            },
        }
        let result = match found {
            Some(i) => Ok(self.files[i].content.clone()),
            None => Err(text::join2("File not found: ", path)),
        };
        let record = FakeReadRecord { path: path.to_owned(), result: copy_result(&result) };
        self.transcript.reads.push(record);
        proof {
            assert(self@.transcript.reads =~= before.transcript.reads.push(record@));
        }
        result
    }

    /// Writes a virtual file.
    pub fn write_file(&mut self, path: &str, content: &str) -> (r: Result<(), String>)
        ensures
            unit_result_view(r) == old(self)@.write(path@, content@).0,
            final(self)@ == old(self)@.write(path@, content@).1,
            old(self)@.well_formed() ==> final(self)@.well_formed(),
    {
        if !self.manifest.allows(HostCapability::WriteFile) {
            return Err("write_file not declared in capability manifest".to_owned());
        }
        let ghost before = self@;
        let path_bound: u128 = string_wire_upper_bound(path);
        let content_bound: u128 = string_wire_upper_bound(content);
        let wire: usize = cap(
            TRANSCRIPT_RECORD_FIXED_WIRE_BYTES as u128 + path_bound + content_bound,
        );
        match self.transcript_budget.reserve(wire) {
            Ok(()) => {},
            Err(e) => {
                return Err(e);
            },
        }
        let result = self.store_file(path, content);
        let record = FakeWriteRecord {
            path: path.to_owned(),
            content: content.to_owned(),
            result: copy_unit_result(&result),
        };
        self.transcript.writes.push(record);
        proof {
            assert(self@.transcript.writes =~= before.transcript.writes.push(record@));
        }
        result
    }

    /// Simulates a process, which always succeeds with empty output.
    pub fn spawn(&mut self, program: &str, args: &Vec<String>) -> (r: Result<String, String>)
        ensures
            result_view(r) == old(self)@.spawn(program@, text::views(args@)).0,
            final(self)@ == old(self)@.spawn(program@, text::views(args@)).1,
            old(self)@.well_formed() ==> final(self)@.well_formed(),
    {
        if !self.manifest.allows(HostCapability::Spawn) {
            return Err("spawn not declared in capability manifest".to_owned());
        }
        let ghost before = self@;
        let program_bound: u128 = string_wire_upper_bound(program);
        let args_bound: usize = strings_wire_upper_bound(args);
        let wire: usize = cap(
            TRANSCRIPT_RECORD_FIXED_WIRE_BYTES as u128 + program_bound + args_bound as u128,
        );
        match self.transcript_budget.reserve(wire) {
            Ok(()) => {},
            Err(e) => {
                return Err(e);
            },
        }
        if self.transcript.spawns.len() >= FAKES_MAX_SPAWN_OPERATIONS {
            assert(before.transcript.spawns.len() >= FAKES_MAX_SPAWN_OPERATIONS);
            return Err("spawn limit exceeded".to_owned());
        }
        let result = Ok(
            "{\"stdout\":\"\",\"stderr\":\"\",\"code\":0,\"timed_out\":false,\"stdout_truncated\":false,\"stderr_truncated\":false}".to_owned(),
        );
        let record = FakeSpawnRecord {
            program: program.to_owned(),
            args: text::clone_strings(args),
            result: copy_result(&result),
        };
        self.transcript.spawns.push(record);
        proof {
            assert(self@.transcript.spawns =~= before.transcript.spawns.push(record@));
        }
        result
    }

    /// Simulates a fetch, which gives an empty object.
    pub fn fetch(&mut self, url: &str, method: &str) -> (r: Result<String, String>)
        ensures
            result_view(r) == old(self)@.fetch(url@, method@).0,
            final(self)@ == old(self)@.fetch(url@, method@).1,
            old(self)@.well_formed() ==> final(self)@.well_formed(),
    {
        if !self.manifest.allows(HostCapability::Fetch) {
            return Err("fetch not declared in capability manifest".to_owned());
        }
        let ghost before = self@;
        let url_bound: u128 = string_wire_upper_bound(url);
        let method_bound: u128 = string_wire_upper_bound(method);
        let wire: usize = cap(
            TRANSCRIPT_RECORD_FIXED_WIRE_BYTES as u128 + url_bound + method_bound,
        );
        match self.transcript_budget.reserve(wire) {
            Ok(()) => {},
            Err(e) => {
                return Err(e);
            },
        }
        if self.transcript.fetches.len() >= FAKES_MAX_FETCH_OPERATIONS {
            assert(before.transcript.fetches.len() >= FAKES_MAX_FETCH_OPERATIONS);
            return Err("fetch limit exceeded".to_owned());
        }
        let result = Ok("{}".to_owned());
        let record = FakeFetchRecord {
            url: url.to_owned(),
            method: method.to_owned(),
            result: copy_result(&result),
        };
        self.transcript.fetches.push(record);
        proof {
            assert(self@.transcript.fetches =~= before.transcript.fetches.push(record@));
        }
        result
    }
}

/// Hosts without files or records.
pub open spec fn fresh_host(
    manifest: ManifestModel,
    transcript_budget: VerificationTranscriptBudget,
) -> HostModel {
    HostModel {
        files: Seq::empty(),
        total_file_bytes: 0,
        transcript: TranscriptModel {
            reads: Seq::empty(),
            writes: Seq::empty(),
            spawns: Seq::empty(),
            fetches: Seq::empty(),
        },
        transcript_budget,
        manifest,
    }
}

/// A call of a host.
pub enum HostCall {
    Seed { path: Seq<char>, content: Seq<char> },
    Read { path: Seq<char> },
    Write { path: Seq<char>, content: Seq<char> },
    Spawn { program: Seq<char>, args: Seq<Seq<char>> },
    Fetch { url: Seq<char>, method: Seq<char> },
}

impl HostModel {
    /// The host after a call.
    pub open spec fn after(self, call: HostCall) -> HostModel {
        match call {
            HostCall::Seed { path, content } => self.seed(path, content).1,
            HostCall::Read { path } => self.read(path).1,
            HostCall::Write { path, content } => self.write(path, content).1,
            HostCall::Spawn { program, args } => self.spawn(program, args).1,
            HostCall::Fetch { url, method } => self.fetch(url, method).1,
        }
    }

    /// What a call stores at a path, where it succeeds.
    pub open spec fn stores(self, call: HostCall, path: Seq<char>) -> Option<Seq<char>> {
        match call {
            HostCall::Seed { path: p, content } => if p == path && self.seed(p, content).0 is Ok {
                Some(content)
            } else {
                None
            },
            HostCall::Write { path: p, content } => if p == path && self.write(
                p,
                content,
            ).0 is Ok {
                Some(content)
            } else {
                None
            },
            _ => None,
        }
    }
}

/// A host after a history of calls.
pub open spec fn host_run(host: HostModel, calls: Seq<HostCall>) -> HostModel
    decreases calls.len(),
{
    if calls.len() == 0 {
        host
    } else {
        host_run(host, calls.drop_last()).after(calls.last())
    }
}

/// What the last call of a history that stored something at a path stored there.
pub open spec fn last_stored(host: HostModel, calls: Seq<HostCall>, path: Seq<char>) -> Option<
    Seq<char>,
>
    decreases calls.len(),
{
    if calls.len() == 0 {
        None
    } else {
        match host_run(host, calls.drop_last()).stores(calls.last(), path) {
            Some(content) => Some(content),
            None => last_stored(host, calls.drop_last(), path),
        }
    }
}

proof fn lemma_content_after_write(
    files: Seq<FileModel>,
    path: Seq<char>,
    content: Seq<char>,
    other: Seq<char>,
)
    ensures
        content_of(with_file(files, path, content), other) == if other == path {
            Some(content)
        } else {
            content_of(files, other)
        },
{
    let next = with_file(files, path, content);
    let p = file_at(path);
    let q = file_at(other);
    let at = match crate::store::position(files, p) {
        Some(i) => {
            assert(crate::store::first_match(files, p, i));
            i
        },
        None => files.len() as int,
    };
    if other == path {
        assert forall|j: int| 0 <= j < at implies !p(#[trigger] next[j]) by {
            assert(next[j] == files[j]);
            if p(files[j]) {
                crate::store::lemma_some_match_is_found(files, p, j);
            }
        }
        crate::store::lemma_position_found(next, p, at);
    } else {
        assert forall|j: int| 0 <= j < files.len() implies q(#[trigger] next[j]) == q(files[j]) by {
        }
        match crate::store::position(files, q) {
            Some(k) => {
                assert(crate::store::first_match(files, q, k));
                assert forall|j: int| 0 <= j < k implies !q(#[trigger] next[j]) by {
                    assert(!q(files[j]));
                }
                assert(q(files[k]));
                assert(q(next[k]));
                crate::store::lemma_position_found(next, q, k);
                assert(k != at);
            },
            None => {
                assert forall|j: int| 0 <= j < next.len() implies !q(#[trigger] next[j]) by {
                    if j < files.len() && q(files[j]) {
                        crate::store::lemma_some_match_is_found(files, q, j);
                    }
                }
                crate::store::lemma_position_missing(next, q);
            },
        }
    }
}

proof fn lemma_files_hold_what_was_stored(host: HostModel, calls: Seq<HostCall>, path: Seq<char>)
    requires
        host.files.len() == 0,
    ensures
        content_of(host_run(host, calls).files, path) == last_stored(host, calls, path),
    decreases calls.len(),
{
    if calls.len() == 0 {
        crate::store::lemma_position_missing(host.files, file_at(path));
    } else {
        let before = host_run(host, calls.drop_last());
        lemma_files_hold_what_was_stored(host, calls.drop_last(), path);
        match calls.last() {
            HostCall::Seed { path: p, content } => {
                lemma_content_after_write(before.files, p, content, path);
            },
            HostCall::Write { path: p, content } => {
                lemma_content_after_write(before.files, p, content, path);
            },
            _ => {},
        }
    }
}

/// The manifest of a host never changes.
proof fn lemma_manifest_stays(host: HostModel, calls: Seq<HostCall>)
    ensures
        host_run(host, calls).manifest == host.manifest,
    decreases calls.len(),
{
    if calls.len() > 0 {
        lemma_manifest_stays(host, calls.drop_last());
    }
}

/// Over the whole life of hosts a read that is declared and admitted gives back what the
/// last successful write or seeding of the path stored, and says so where there was none.
pub proof fn law_reads_see_the_last_write(
    manifest: ManifestModel,
    budget: VerificationTranscriptBudget,
    calls: Seq<HostCall>,
    path: Seq<char>,
)
    ensures
        ({
            let first = fresh_host(manifest, budget);
            let host = host_run(first, calls);
            let stored = last_stored(first, calls, path);
            let size = match stored {
                Some(content) => text::utf8_len(content),
                None => 0,
            };
            let wire = capped(
                TRANSCRIPT_RECORD_FIXED_WIRE_BYTES + 2 * wire_bound(path) + 6 * size,
            );
            host.read(path).0 == if !manifest.allows(HostCapability::ReadFile) {
                Err("read_file not declared in capability manifest"@)
            } else if !host.transcript_budget.admits(wire) {
                Err("fake transcript limit exceeded"@)
            } else {
                match stored {
                    Some(content) => Ok(content),
                    None => Err("File not found: "@ + path),
                }
            }
        }),
{
    lemma_files_hold_what_was_stored(fresh_host(manifest, budget), calls, path);
    lemma_manifest_stays(fresh_host(manifest, budget), calls);
}

/// A new budget after reservations.
pub open spec fn budget_run(sizes: Seq<usize>) -> VerificationTranscriptBudget
    decreases sizes.len(),
{
    if sizes.len() == 0 {
        VerificationTranscriptBudget::unspent()
    } else {
        budget_run(sizes.drop_last()).reserved(sizes.last())
    }
}

/// The sum of sizes.
pub open spec fn total_of(sizes: Seq<usize>) -> nat
    decreases sizes.len(),
{
    if sizes.len() == 0 {
        0
    } else {
        total_of(sizes.drop_last()) + sizes.last() as nat
    }
}

/// A reservation is granted exactly where all that was asked for, itself with it, stays
/// within the number of operations and the bytes of a request. So one that is refused
/// has none granted after it.
pub proof fn law_reservations_stay_within_the_request(sizes: Seq<usize>, wire_bytes: usize)
    ensures
        budget_run(sizes).admits(wire_bytes) <==> sizes.len() + 1
            <= VERIFICATION_TRANSCRIPT_MAX_CALLS && total_of(sizes) + wire_bytes
            <= VERIFICATION_TRANSCRIPT_MAX_BYTES,
        budget_run(sizes).exceeded <==> sizes.len() > VERIFICATION_TRANSCRIPT_MAX_CALLS || total_of(
            sizes,
        ) > VERIFICATION_TRANSCRIPT_MAX_BYTES,
        !budget_run(sizes).exceeded ==> budget_run(sizes).calls == sizes.len() && budget_run(
            sizes,
        ).bytes == total_of(sizes),
    decreases sizes.len(),
{
    if sizes.len() > 0 {
        law_reservations_stay_within_the_request(sizes.drop_last(), sizes.last());
    }
}

/// What one set of hosts is used for.
pub struct HostUse {
    pub manifest: ManifestModel,
    pub calls: Seq<HostCall>,
}

/// The budget of a request after a chain of hosts, each of which goes on with the budget
/// of the one before.
pub open spec fn chained_budget(uses: Seq<HostUse>) -> VerificationTranscriptBudget
    decreases uses.len(),
{
    if uses.len() == 0 {
        VerificationTranscriptBudget::unspent()
    } else {
        let host = fresh_host(uses.last().manifest, chained_budget(uses.drop_last()));
        host_run(host, uses.last().calls).transcript_budget
    }
}

/// How many operations a chain of hosts has recorded.
pub open spec fn chained_calls(uses: Seq<HostUse>) -> nat
    decreases uses.len(),
{
    if uses.len() == 0 {
        0
    } else {
        let host = fresh_host(uses.last().manifest, chained_budget(uses.drop_last()));
        chained_calls(uses.drop_last()) + host_run(host, uses.last().calls).transcript.calls()
    }
}

proof fn lemma_records_are_reserved(host: HostModel, calls: Seq<HostCall>)
    requires
        host.transcript_budget.calls <= VERIFICATION_TRANSCRIPT_MAX_CALLS,
        host.transcript_budget.bytes <= VERIFICATION_TRANSCRIPT_MAX_BYTES,
    ensures
        ({
            let after = host_run(host, calls);
            &&& after.transcript_budget.calls <= VERIFICATION_TRANSCRIPT_MAX_CALLS
            &&& after.transcript_budget.bytes <= VERIFICATION_TRANSCRIPT_MAX_BYTES
            &&& after.transcript.calls() - host.transcript.calls()
                <= after.transcript_budget.calls - host.transcript_budget.calls
            &&& host.transcript_budget.exceeded ==> after.transcript_budget.exceeded
                && after.transcript.calls() == host.transcript.calls()
        }),
    decreases calls.len(),
{
    if calls.len() > 0 {
        lemma_records_are_reserved(host, calls.drop_last());
    }
}

/// The hosts of a request share one budget: together they record no more operations than
/// a request may hold, and once one of them exceeds it none that follows records any.
pub proof fn law_hosts_share_one_budget(uses: Seq<HostUse>, next: HostUse)
    ensures
        chained_calls(uses) <= chained_budget(uses).calls <= VERIFICATION_TRANSCRIPT_MAX_CALLS,
        chained_budget(uses).bytes <= VERIFICATION_TRANSCRIPT_MAX_BYTES,
        chained_budget(uses).exceeded ==> chained_budget(uses.push(next)).exceeded
            && chained_calls(uses.push(next)) == chained_calls(uses),
    decreases uses.len(),
{
    if uses.len() > 0 {
        law_hosts_share_one_budget(uses.drop_last(), next);
        let host = fresh_host(uses.last().manifest, chained_budget(uses.drop_last()));
        lemma_records_are_reserved(host, uses.last().calls);
    }
    assert(uses.push(next).drop_last() =~= uses);
    lemma_records_are_reserved(fresh_host(next.manifest, chained_budget(uses)), next.calls);
}

proof fn lemma_total_after_update(files: Seq<FileModel>, i: int, file: FileModel)
    requires
        0 <= i < files.len(),
    ensures
        total_size(files.update(i, file)) + text::utf8_len(files[i].content) == total_size(files)
            + text::utf8_len(file.content),
    decreases files.len(),
{
    let init = files.drop_last();
    let after = files.update(i, file);
    if i == files.len() - 1 {
        assert(after.drop_last() =~= init);
    } else {
        assert(after.drop_last() =~= init.update(i, file));
        lemma_total_after_update(init, i, file);
    }
}

/// A read gives back what the last write to the path wrote, where both operations
/// are declared and the budget admits them.
pub proof fn law_read_gives_back_the_write(host: HostModel, path: Seq<char>, content: Seq<char>)
    requires
        host.write(path, content).0 is Ok,
        host.manifest.allows(HostCapability::ReadFile),
        host.write(path, content).1.transcript_budget.admits(
            capped(
                TRANSCRIPT_RECORD_FIXED_WIRE_BYTES + 2 * wire_bound(path) + 6 * text::utf8_len(
                    content,
                ),
            ),
        ),
    ensures
        host.write(path, content).1.read(path).0 == Ok::<Seq<char>, Seq<char>>(content),
{
    let next = host.write(path, content).1;
    let p = file_at(path);
    match crate::store::position(host.files, p) {
        Some(i) => {
            assert(crate::store::first_match(host.files, p, i));
            assert forall|j: int| 0 <= j < i implies !p(#[trigger] next.files[j]) by {
                assert(next.files[j] == host.files[j]);
            }
            crate::store::lemma_position_found(next.files, p, i);
        },
        None => {
            let n = host.files.len() as int;
            assert forall|j: int| 0 <= j < n implies !p(#[trigger] next.files[j]) by {
                assert(next.files[j] == host.files[j]);
                if p(host.files[j]) {
                    crate::store::lemma_some_match_is_found(host.files, p, j);
                }
            }
            crate::store::lemma_position_found(next.files, p, n);
        },
    }
}

/// The wire form of a transcript holds at most the allowed number of operations.
pub proof fn law_wire_form_is_bounded(transcript: TranscriptModel)
    ensures
        transcript.limited(VERIFICATION_TRANSCRIPT_MAX_CALLS as int).cut_values().calls()
            <= VERIFICATION_TRANSCRIPT_MAX_CALLS,
{
}

/// Once the budget is exceeded no operation is recorded any more.
pub proof fn law_exceeded_budget_stays_exceeded(
    budget: VerificationTranscriptBudget,
    wire_bytes: usize,
)
    requires
        budget.exceeded,
    ensures
        !budget.admits(wire_bytes),
        budget.reserved(wire_bytes).exceeded,
{
}

/// An operation that the manifest does not declare is refused and leaves no trace: nothing
/// is recorded, counted or stored.
pub proof fn law_undeclared_operations_leave_no_trace(
    host: HostModel,
    a: Seq<char>,
    b: Seq<char>,
    args: Seq<Seq<char>>,
)
    ensures
        !host.manifest.allows(HostCapability::ReadFile) ==> host.read(a).0 is Err && host.read(a).1
            == host && host.seed(a, b).0 is Err && host.seed(a, b).1 == host,
        !host.manifest.allows(HostCapability::WriteFile) ==> host.write(a, b).0 is Err
            && host.write(a, b).1 == host,
        !host.manifest.allows(HostCapability::Spawn) ==> host.spawn(a, args).0 is Err
            && host.spawn(a, args).1 == host,
        !host.manifest.allows(HostCapability::Fetch) ==> host.fetch(a, b).0 is Err
            && host.fetch(a, b).1 == host,
{
}

/// What a transcript records is what was asked for and what was answered. An operation
/// adds at most one record, of its own sort, behind those there are; no other record and
/// no manifest changes, and only a write changes a file.
pub proof fn law_transcripts_record_what_was_asked(
    host: HostModel,
    a: Seq<char>,
    b: Seq<char>,
    args: Seq<Seq<char>>,
)
    ensures
        ({
            let t = host.transcript;
            let (result, next) = host.read(a);
            &&& next.files == host.files && next.manifest == host.manifest
            &&& next.transcript.writes == t.writes && next.transcript.spawns == t.spawns
                && next.transcript.fetches == t.fetches
            &&& next.transcript.reads == t.reads || next.transcript.reads == t.reads.push(
                ReadModel { path: a, result },
            )
            &&& result is Ok ==> next.transcript.reads.len() == t.reads.len() + 1
        }),
        ({
            let t = host.transcript;
            let (result, next) = host.write(a, b);
            &&& next.manifest == host.manifest
            &&& next.transcript.reads == t.reads && next.transcript.spawns == t.spawns
                && next.transcript.fetches == t.fetches
            &&& next.transcript.writes == t.writes || next.transcript.writes == t.writes.push(
                WriteModel { path: a, content: b, result },
            )
            &&& result is Ok ==> next.transcript.writes.len() == t.writes.len() + 1
            &&& result is Err ==> next.files == host.files
        }),
        ({
            let t = host.transcript;
            let (result, next) = host.spawn(a, args);
            &&& next.files == host.files && next.manifest == host.manifest
            &&& next.transcript.reads == t.reads && next.transcript.writes == t.writes
                && next.transcript.fetches == t.fetches
            &&& next.transcript.spawns == t.spawns || next.transcript.spawns == t.spawns.push(
                SpawnModel { program: a, args, result },
            )
            &&& result is Ok ==> next.transcript.spawns.len() == t.spawns.len() + 1
        }),
        ({
            let t = host.transcript;
            let (result, next) = host.fetch(a, b);
            &&& next.files == host.files && next.manifest == host.manifest
            &&& next.transcript.reads == t.reads && next.transcript.writes == t.writes
                && next.transcript.spawns == t.spawns
            &&& next.transcript.fetches == t.fetches || next.transcript.fetches == t.fetches.push(
                FetchModel { url: a, method: b, result },
            )
            &&& result is Ok ==> next.transcript.fetches.len() == t.fetches.len() + 1
        }),
{
}

/// A verification records at most 256 operations and 512 KiB; from the first one that does
/// not fit on, nothing is admitted.
pub proof fn law_a_verification_is_bounded(budget: VerificationTranscriptBudget, bytes: usize)
    ensures
        budget.admits(bytes) <==> !budget.exceeded && budget.calls < 256 && budget.bytes + bytes
            <= 524288,
        budget.admits(bytes) ==> budget.reserved(bytes).calls == budget.calls + 1
            && budget.reserved(bytes).bytes == budget.bytes + bytes && !budget.reserved(
            bytes,
        ).exceeded,
        !budget.admits(bytes) ==> budget.reserved(bytes).exceeded && budget.reserved(bytes).calls
            == budget.calls && budget.reserved(bytes).bytes == budget.bytes,
{
}

} // verus!
