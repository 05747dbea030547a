//! How tasks fare with a skill and without it.
//!
//! A turn counts once, however many attempts it took. A turn whose telemetry was lost,
//! or whose outcome says nothing of success, counts on neither side. What a skill is
//! compared with are the turns without any skill under the very checks that it was
//! observed under.

use crate::text;
use vstd::prelude::*;
use vstd::string::*;

verus! {

/// The outcome of a task.
#[derive(Debug, Clone, PartialEq, Eq)]
pub struct OutcomeRow {
    pub evidence_id: String,
    pub turn_id: String,
    pub verify_passed: bool,
    pub source_kind: String,
    pub source_id: Option<String>,
    pub production: bool,
    pub evidence_complete: bool,
}

/// A skill took part in the task of an outcome.
#[derive(Debug, Clone, PartialEq, Eq)]
pub struct OutcomeLink {
    pub evidence_id: String,
    pub skill_id: String,
}

/// A turn whose telemetry was lost.
#[derive(Debug, Clone, PartialEq, Eq)]
pub struct LostTurn {
    pub turn_id: String,
    pub production: bool,
}

/// The telemetry of the turn of an outcome was lost.
pub open spec fn is_lost(lost: Seq<LostTurn>, row: OutcomeRow) -> bool {
    exists|i: int|
        0 <= i < lost.len() && (#[trigger] lost[i]).turn_id@ == row.turn_id@ && lost[i].production
            == row.production
}

/// An outcome says something of success.
pub open spec fn is_qualified(lost: Seq<LostTurn>, row: OutcomeRow) -> bool {
    &&& row.source_kind@ != "no_verify_command"@
    &&& row.source_kind@ != "gate_skipped"@
    &&& row.evidence_complete
    &&& !is_lost(lost, row)
}

/// A skill took part in a task.
pub open spec fn took_part(links: Seq<OutcomeLink>, row: OutcomeRow, skill_id: Seq<char>) -> bool {
    exists|i: int|
        0 <= i < links.len() && (#[trigger] links[i]).evidence_id@ == row.evidence_id@
            && links[i].skill_id@ == skill_id
}

/// Some skill took part in a task.
pub open spec fn any_took_part(links: Seq<OutcomeLink>, row: OutcomeRow) -> bool {
    exists|i: int| 0 <= i < links.len() && (#[trigger] links[i]).evidence_id@ == row.evidence_id@
}

/// What is known of tasks.
pub struct TaskTables {
    pub outcomes: Vec<OutcomeRow>,
    pub links: Vec<OutcomeLink>,
    pub lost: Vec<LostTurn>,
}

impl TaskTables {
    /// A skill was observed in an outcome.
    pub open spec fn observes(self, row: OutcomeRow, skill_id: Seq<char>, production: bool) -> bool {
        &&& is_qualified(self.lost@, row)
        &&& took_part(self.links@, row, skill_id)
        &&& row.production == production
    }

    /// A skill was observed in production under the check of an outcome.
    pub open spec fn in_scope(self, row: OutcomeRow, skill_id: Seq<char>) -> bool {
        exists|i: int|
            0 <= i < self.outcomes@.len() && self.observes(
                #[trigger] self.outcomes@[i],
                skill_id,
                true,
            ) && self.outcomes@[i].source_kind@ == row.source_kind@ && text::opt_view(
                self.outcomes@[i].source_id,
            ) == text::opt_view(row.source_id)
    }

    /// An outcome without any skill that a skill is compared with.
    pub open spec fn is_baseline(self, row: OutcomeRow, skill_id: Seq<char>) -> bool {
        &&& is_qualified(self.lost@, row)
        &&& row.production
        &&& !any_took_part(self.links@, row)
        &&& self.in_scope(row, skill_id)
    }

    /// The turns that count as observed.
    pub open spec fn observed(self, skill_id: Seq<char>, production: bool) -> spec_fn(
        OutcomeRow,
    ) -> bool {
        |row: OutcomeRow| self.observes(row, skill_id, production)
    }

    /// The turns that count as observed and passed.
    pub open spec fn observed_pass(self, skill_id: Seq<char>) -> spec_fn(OutcomeRow) -> bool {
        |row: OutcomeRow| self.observes(row, skill_id, true) && row.verify_passed
    }

    /// The turns that a skill is compared with.
    pub open spec fn baseline(self, skill_id: Seq<char>) -> spec_fn(OutcomeRow) -> bool {
        |row: OutcomeRow| self.is_baseline(row, skill_id)
    }

    /// The turns that a skill is compared with and that passed.
    pub open spec fn baseline_pass(self, skill_id: Seq<char>) -> spec_fn(OutcomeRow) -> bool {
        |row: OutcomeRow| self.is_baseline(row, skill_id) && row.verify_passed
    }
}

/// The turns of the outcomes that count, each once.
pub open spec fn turns(rows: Seq<OutcomeRow>, p: spec_fn(OutcomeRow) -> bool) -> Seq<Seq<char>>
    decreases rows.len(),
{
    if rows.len() == 0 {
        Seq::empty()
    } else {
        let before = turns(rows.drop_last(), p);
        if p(rows.last()) && !before.contains(rows.last().turn_id@) {
            before.push(rows.last().turn_id@)
        } else {
            before
        }
    }
}

/// A turn is counted once, and exactly if one of its outcomes counts.
pub proof fn law_turns_count_once(
    rows: Seq<OutcomeRow>,
    p: spec_fn(OutcomeRow) -> bool,
    turn: Seq<char>,
)
    ensures
        turns(rows, p).no_duplicates(),
        turns(rows, p).contains(turn) <==> exists|i: int|
            0 <= i < rows.len() && p(#[trigger] rows[i]) && rows[i].turn_id@ == turn,
    decreases rows.len(),
{
    if rows.len() > 0 {
        let init = rows.drop_last();
        let last = rows.last();
        law_turns_count_once(init, p, turn);
        let before = turns(init, p);
        let after = turns(rows, p);
        assert(rows[rows.len() - 1] == last);
        if before.contains(turn) {
            let k = before.index_of(turn);
            assert(after[k] == turn);
            let i = choose|i: int|
                0 <= i < init.len() && p(#[trigger] init[i]) && init[i].turn_id@ == turn;
            assert(rows[i] == init[i]);
        } else if p(last) && last.turn_id@ == turn {
            assert(after[before.len() as int] == turn);
        } else {
            if after.contains(turn) {
                let k = after.index_of(turn);
                assert(k < before.len() ==> before[k] == turn);
            }
            if exists|i: int| 0 <= i < rows.len() && p(#[trigger] rows[i]) && rows[i].turn_id@ == turn {
                let i = choose|i: int|
                    0 <= i < rows.len() && p(#[trigger] rows[i]) && rows[i].turn_id@ == turn;
                assert(i < init.len());
                assert(init[i] == rows[i]);
            }
        }
    }
}

/// How tasks fared with a skill and without it, in turns.
#[derive(Debug, Clone, Copy, PartialEq, Eq, Structural)]
pub struct UsageCounts {
    pub tasks_with: usize,
    pub passed_with: usize,
    pub gym_tasks: usize,
    pub baseline_tasks: usize,
    pub baseline_passes: usize,
}

impl TaskTables {
    /// How tasks fared with a skill and without it.
    pub open spec fn usage(self, skill_id: Seq<char>) -> UsageCounts {
        UsageCounts {
            tasks_with: turns(self.outcomes@, self.observed(skill_id, true)).len() as usize,
            passed_with: turns(self.outcomes@, self.observed_pass(skill_id)).len() as usize,
            gym_tasks: turns(self.outcomes@, self.observed(skill_id, false)).len() as usize,
            baseline_tasks: turns(self.outcomes@, self.baseline(skill_id)).len() as usize,
            baseline_passes: turns(self.outcomes@, self.baseline_pass(skill_id)).len() as usize,
        }
    }
}

proof fn lemma_turns_are_a_set(rows: Seq<OutcomeRow>, p: spec_fn(OutcomeRow) -> bool)
    ensures
        turns(rows, p).len() <= rows.len(),
        turns(rows, p).to_set().finite(),
        turns(rows, p).to_set().len() == turns(rows, p).len(),
    decreases rows.len(),
{
    law_turns_count_once(rows, p, Seq::empty());
    turns(rows, p).unique_seq_to_set();
    if rows.len() > 0 {
        lemma_turns_are_a_set(rows.drop_last(), p);
    }
}

/// The set of the turns that have an outcome of some sort.
proof fn lemma_turns_of(
    rows: Seq<OutcomeRow>,
    p: spec_fn(OutcomeRow) -> bool,
    wanted: Set<Seq<char>>,
)
    requires
        forall|turn: Seq<char>|
            #[trigger] wanted.contains(turn) <==> exists|i: int|
                0 <= i < rows.len() && p(#[trigger] rows[i]) && rows[i].turn_id@ == turn,
    ensures
        wanted.finite(),
        wanted.len() == turns(rows, p).len(),
        turns(rows, p).len() <= rows.len(),
{
    lemma_turns_are_a_set(rows, p);
    let found = turns(rows, p);
    assert forall|turn: Seq<char>| wanted.contains(turn) <==> found.to_set().contains(turn) by {
        law_turns_count_once(rows, p, turn);
    }
    assert(wanted =~= found.to_set());
}

/// The turns of the outcomes of a table that are told by a condition.
pub open spec fn turns_with(tables: TaskTables, wanted: spec_fn(OutcomeRow) -> bool) -> Set<
    Seq<char>,
> {
    Set::new(
        |turn: Seq<char>|
            exists|i: int|
                0 <= i < tables.outcomes@.len() && (#[trigger] tables.outcomes@[i]).turn_id@ == turn
                    && wanted(tables.outcomes@[i]),
    )
}

/// What is counted are turns, and each count has just the turns that it is named after. A
/// task was done with a skill where the skill is linked to an outcome of its turn, and it
/// passed where such an outcome passed its check. Practice is told from production. The
/// baseline are the turns in production with an outcome that no skill is linked to, under
/// a check that the skill was seen under in production. Lost telemetry, incomplete
/// evidence and outcomes without a check count nowhere.
pub proof fn law_usage_counts_turns_by_their_outcomes(tables: TaskTables, skill_id: Seq<char>)
    requires
        tables.outcomes@.len() <= usize::MAX,
    ensures
        ({
            let sound = |row: OutcomeRow|
                row.evidence_complete && row.source_kind@ != "no_verify_command"@
                    && row.source_kind@ != "gate_skipped"@ && !exists|k: int|
                    0 <= k < tables.lost@.len() && (#[trigger] tables.lost@[k]).turn_id@
                        == row.turn_id@ && tables.lost@[k].production == row.production;
            let with = |row: OutcomeRow|
                exists|k: int|
                    0 <= k < tables.links@.len() && (#[trigger] tables.links@[k]).evidence_id@
                        == row.evidence_id@ && tables.links@[k].skill_id@ == skill_id;
            let alone = |row: OutcomeRow|
                forall|k: int|
                    0 <= k < tables.links@.len() ==> (#[trigger] tables.links@[k]).evidence_id@
                        != row.evidence_id@;
            let comparable = |row: OutcomeRow|
                exists|k: int|
                    0 <= k < tables.outcomes@.len() && {
                        let other = #[trigger] tables.outcomes@[k];
                        sound(other) && with(other) && other.production && other.source_kind@
                            == row.source_kind@ && text::opt_view(other.source_id)
                            == text::opt_view(row.source_id)
                    };
            let counts = tables.usage(skill_id);
            let tasks = turns_with(
                tables,
                |row: OutcomeRow| sound(row) && with(row) && row.production,
            );
            let passed = turns_with(
                tables,
                |row: OutcomeRow| sound(row) && with(row) && row.production && row.verify_passed,
            );
            let gym = turns_with(
                tables,
                |row: OutcomeRow| sound(row) && with(row) && !row.production,
            );
            let baseline = turns_with(
                tables,
                |row: OutcomeRow| sound(row) && row.production && alone(row) && comparable(row),
            );
            let baseline_passed = turns_with(
                tables,
                |row: OutcomeRow|
                    sound(row) && row.production && alone(row) && comparable(row)
                        && row.verify_passed,
            );
            &&& tasks.finite() && counts.tasks_with == tasks.len()
            &&& passed.finite() && counts.passed_with == passed.len()
            &&& gym.finite() && counts.gym_tasks == gym.len()
            &&& baseline.finite() && counts.baseline_tasks == baseline.len()
            &&& baseline_passed.finite() && counts.baseline_passes == baseline_passed.len()
        }),
{
    let rows = tables.outcomes@;
    let sound = |row: OutcomeRow|
        row.evidence_complete && row.source_kind@ != "no_verify_command"@ && row.source_kind@
            != "gate_skipped"@ && !exists|k: int|
            0 <= k < tables.lost@.len() && (#[trigger] tables.lost@[k]).turn_id@ == row.turn_id@
                && tables.lost@[k].production == row.production;
    let with = |row: OutcomeRow|
        exists|k: int|
            0 <= k < tables.links@.len() && (#[trigger] tables.links@[k]).evidence_id@
                == row.evidence_id@ && tables.links@[k].skill_id@ == skill_id;
    let alone = |row: OutcomeRow|
        forall|k: int|
            0 <= k < tables.links@.len() ==> (#[trigger] tables.links@[k]).evidence_id@
                != row.evidence_id@;
    let comparable = |row: OutcomeRow|
        exists|k: int|
            0 <= k < tables.outcomes@.len() && {
                let other = #[trigger] tables.outcomes@[k];
                sound(other) && with(other) && other.production && other.source_kind@
                    == row.source_kind@ && text::opt_view(other.source_id) == text::opt_view(
                    row.source_id,
                )
            };
    assert forall|row: OutcomeRow| #[trigger] sound(row) == is_qualified(tables.lost@, row) by {}
    assert forall|row: OutcomeRow| #[trigger]
        with(row) == took_part(tables.links@, row, skill_id) by {}
    assert forall|row: OutcomeRow| #[trigger]
        alone(row) == !any_took_part(tables.links@, row) by {}
    assert forall|row: OutcomeRow| #[trigger]
        comparable(row) == tables.in_scope(row, skill_id) by {
        if comparable(row) {
            let k = choose|k: int|
                0 <= k < tables.outcomes@.len() && {
                    let other = #[trigger] tables.outcomes@[k];
                    sound(other) && with(other) && other.production && other.source_kind@
                        == row.source_kind@ && text::opt_view(other.source_id) == text::opt_view(
                        row.source_id,
                    )
                };
            assert(tables.observes(tables.outcomes@[k], skill_id, true));
        }
        if tables.in_scope(row, skill_id) {
            let k = choose|k: int|
                0 <= k < tables.outcomes@.len() && tables.observes(
                    #[trigger] tables.outcomes@[k],
                    skill_id,
                    true,
                ) && tables.outcomes@[k].source_kind@ == row.source_kind@ && text::opt_view(
                    tables.outcomes@[k].source_id,
                ) == text::opt_view(row.source_id);
            assert(sound(tables.outcomes@[k]) && with(tables.outcomes@[k]));
        }
    }
    lemma_counted(
        tables,
        tables.observed(skill_id, true),
        |row: OutcomeRow| sound(row) && with(row) && row.production,
    );
    lemma_counted(
        tables,
        tables.observed_pass(skill_id),
        |row: OutcomeRow| sound(row) && with(row) && row.production && row.verify_passed,
    );
    lemma_counted(
        tables,
        tables.observed(skill_id, false),
        |row: OutcomeRow| sound(row) && with(row) && !row.production,
    );
    lemma_counted(
        tables,
        tables.baseline(skill_id),
        |row: OutcomeRow| sound(row) && row.production && alone(row) && comparable(row),
    );
    lemma_counted(
        tables,
        tables.baseline_pass(skill_id),
        |row: OutcomeRow|
            sound(row) && row.production && alone(row) && comparable(row) && row.verify_passed,
    );
}

proof fn lemma_counted(
    tables: TaskTables,
    p: spec_fn(OutcomeRow) -> bool,
    wanted: spec_fn(OutcomeRow) -> bool,
)
    requires
        forall|row: OutcomeRow| #[trigger] p(row) == wanted(row),
    ensures
        turns_with(tables, wanted).finite(),
        turns_with(tables, wanted).len() == turns(tables.outcomes@, p).len(),
        turns(tables.outcomes@, p).len() <= tables.outcomes@.len(),
{
    let rows = tables.outcomes@;
    assert forall|turn: Seq<char>| #[trigger] turns_with(tables, wanted).contains(
        turn,
    ) <==> exists|i: int|
        0 <= i < rows.len() && p(#[trigger] rows[i]) && rows[i].turn_id@ == turn by {
        if turns_with(tables, wanted).contains(turn) {
            let i = choose|i: int|
                0 <= i < rows.len() && (#[trigger] rows[i]).turn_id@ == turn && wanted(rows[i]);
            assert(p(rows[i]));
        }
        if exists|i: int| 0 <= i < rows.len() && p(#[trigger] rows[i]) && rows[i].turn_id@ == turn {
            let i = choose|i: int|
                0 <= i < rows.len() && p(#[trigger] rows[i]) && rows[i].turn_id@ == turn;
            assert(wanted(rows[i]));
        }
    }
    lemma_turns_of(rows, p, turns_with(tables, wanted));
}

fn push_turn(list: &mut Vec<String>, turn: &str, counts: bool)
    ensures
        text::views(final(list)@) == if counts && !text::views(old(list)@).contains(turn@) {
            text::views(old(list)@).push(turn@)
        } else {
            text::views(old(list)@)
        },
{
    let ghost before = text::views(list@);
    if counts && !text::contains_text(list, turn) {
        list.push(turn.to_owned());
        assert(text::views(list@) =~= before.push(turn@));
    }
}

impl TaskTables {
    fn qualifies(&self, row: &OutcomeRow) -> (r: bool)
        ensures
            r == is_qualified(self.lost@, *row),
    {
        if text::same(&row.source_kind, "no_verify_command") || text::same(
            &row.source_kind,
            "gate_skipped",
        ) || !row.evidence_complete {
            return false;
        }
        let mut i: usize = 0;
        while i < self.lost.len()
            invariant
                i <= self.lost@.len(),
                forall|j: int|
                    0 <= j < i ==> !((#[trigger] self.lost@[j]).turn_id@ == row.turn_id@
                        && self.lost@[j].production == row.production),
            decreases self.lost@.len() - i,
        {
            if text::same(&self.lost[i].turn_id, &row.turn_id) && self.lost[i].production
                == row.production {
                assert(self.lost@[i as int].turn_id@ == row.turn_id@);
                return false;
            }
            i = i + 1;
        }
        true
    }

    fn has_link(&self, row: &OutcomeRow, skill_id: &str) -> (r: bool)
        ensures
            r == took_part(self.links@, *row, skill_id@),
    {
        let mut i: usize = 0;
        while i < self.links.len()
            invariant
                i <= self.links@.len(),
                forall|j: int|
                    0 <= j < i ==> !((#[trigger] self.links@[j]).evidence_id@ == row.evidence_id@
                        && self.links@[j].skill_id@ == skill_id@),
            decreases self.links@.len() - i,
        {
            if text::same(&self.links[i].evidence_id, &row.evidence_id) && text::same(
                &self.links[i].skill_id,
                skill_id,
            ) {
                assert(self.links@[i as int].evidence_id@ == row.evidence_id@);
                return true;
            }
            i = i + 1;
        }
        false
    }

    fn has_any_link(&self, row: &OutcomeRow) -> (r: bool)
        ensures
            r == any_took_part(self.links@, *row),
    {
        let mut i: usize = 0;
        while i < self.links.len()
            invariant
                i <= self.links@.len(),
                forall|j: int|
                    0 <= j < i ==> (#[trigger] self.links@[j]).evidence_id@ != row.evidence_id@,
            decreases self.links@.len() - i,
        {
            if text::same(&self.links[i].evidence_id, &row.evidence_id) {
                assert(self.links@[i as int].evidence_id@ == row.evidence_id@);
                return true;
            }
            i = i + 1;
        }
        false
    }

    fn was_observed_under(&self, row: &OutcomeRow, skill_id: &str) -> (r: bool)
        ensures
            r == self.in_scope(*row, skill_id@),
    {
        let mut i: usize = 0;
        while i < self.outcomes.len()
            invariant
                i <= self.outcomes@.len(),
                forall|j: int|
                    0 <= j < i ==> !(self.observes(#[trigger] self.outcomes@[j], skill_id@, true)
                        && self.outcomes@[j].source_kind@ == row.source_kind@ && text::opt_view(
                        self.outcomes@[j].source_id,
                    ) == text::opt_view(row.source_id)),
            decreases self.outcomes@.len() - i,
        {
            let other = &self.outcomes[i];
            if other.production && text::same(&other.source_kind, &row.source_kind)
                && text::same_opt(&other.source_id, &row.source_id) && self.qualifies(other)
                && self.has_link(other, skill_id) {
                assert(self.observes(self.outcomes@[i as int], skill_id@, true));
                return true;
            }
            i = i + 1;
        }
        false
    }

    /// Counts how tasks fared with a skill and without it.
    pub fn usage_counts(&self, skill_id: &str) -> (r: UsageCounts)
        ensures
            r == self.usage(skill_id@),
            r.tasks_with == turns(self.outcomes@, self.observed(skill_id@, true)).len(),
            r.passed_with == turns(self.outcomes@, self.observed_pass(skill_id@)).len(),
            r.gym_tasks == turns(self.outcomes@, self.observed(skill_id@, false)).len(),
            r.baseline_tasks == turns(self.outcomes@, self.baseline(skill_id@)).len(),
            r.baseline_passes == turns(self.outcomes@, self.baseline_pass(skill_id@)).len(),
    {
        let ghost rows = self.outcomes@;
        let ghost with = self.observed(skill_id@, true);
        let ghost passed = self.observed_pass(skill_id@);
        let ghost gym = self.observed(skill_id@, false);
        let ghost base = self.baseline(skill_id@);
        let ghost base_passed = self.baseline_pass(skill_id@);
        let mut tasks: Vec<String> = Vec::new();
        let mut passes: Vec<String> = Vec::new();
        let mut gym_tasks: Vec<String> = Vec::new();
        let mut baselines: Vec<String> = Vec::new();
        let mut baseline_passes: Vec<String> = Vec::new();
        let mut i: usize = 0;
        proof {
            assert(rows.take(0).len() == 0);
            assert(text::views(tasks@) =~= Seq::empty());
            assert(text::views(passes@) =~= Seq::empty());
            assert(text::views(gym_tasks@) =~= Seq::empty());
            assert(text::views(baselines@) =~= Seq::empty());
            assert(text::views(baseline_passes@) =~= Seq::empty());
        }
        while i < self.outcomes.len()
            invariant
                i <= self.outcomes@.len(),
                rows == self.outcomes@,
                with == self.observed(skill_id@, true),
                passed == self.observed_pass(skill_id@),
                gym == self.observed(skill_id@, false),
                base == self.baseline(skill_id@),
                base_passed == self.baseline_pass(skill_id@),
                text::views(tasks@) == turns(rows.take(i as int), with),
                text::views(passes@) == turns(rows.take(i as int), passed),
                text::views(gym_tasks@) == turns(rows.take(i as int), gym),
                text::views(baselines@) == turns(rows.take(i as int), base),
                text::views(baseline_passes@) == turns(rows.take(i as int), base_passed),
            decreases self.outcomes@.len() - i,
        {
            let row = &self.outcomes[i];
            proof {
                assert(rows.take(i + 1).drop_last() =~= rows.take(i as int));
                assert(rows.take(i + 1).last() == rows[i as int]);
            }
            let qualified = self.qualifies(row);
            let linked = qualified && self.has_link(row, skill_id);
            let compared = qualified && row.production && !self.has_any_link(row)
                && self.was_observed_under(row, skill_id);
            push_turn(&mut tasks, &row.turn_id, linked && row.production);
            push_turn(&mut passes, &row.turn_id, linked && row.production && row.verify_passed);
            push_turn(&mut gym_tasks, &row.turn_id, linked && !row.production);
            push_turn(&mut baselines, &row.turn_id, compared);
            push_turn(&mut baseline_passes, &row.turn_id, compared && row.verify_passed);
            i = i + 1;
        }
        proof {
            assert(rows.take(rows.len() as int) =~= rows);
            assert(text::views(tasks@).len() == tasks@.len());
            assert(text::views(passes@).len() == passes@.len());
            assert(text::views(gym_tasks@).len() == gym_tasks@.len());
            assert(text::views(baselines@).len() == baselines@.len());
            assert(text::views(baseline_passes@).len() == baseline_passes@.len());
        }
        UsageCounts {
            tasks_with: tasks.len(),
            passed_with: passes.len(),
            gym_tasks: gym_tasks.len(),
            baseline_tasks: baselines.len(),
            baseline_passes: baseline_passes.len(),
        }
    }
}

} // verus!
