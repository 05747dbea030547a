use skills::usage::{LostTurn, OutcomeLink, OutcomeRow, TaskTables, UsageCounts};

fn outcome(evidence: &str, turn: &str, passed: bool, scope: &str) -> OutcomeRow {
    OutcomeRow {
        evidence_id: evidence.to_string(),
        turn_id: turn.to_string(),
        verify_passed: passed,
        source_kind: "oracle".to_string(),
        source_id: Some(scope.to_string()),
        production: true,
        evidence_complete: true,
    }
}

fn link(evidence: &str, skill: &str) -> OutcomeLink {
    OutcomeLink {
        evidence_id: evidence.to_string(),
        skill_id: skill.to_string(),
    }
}

fn corpus(skills: usize, shared_scope: bool) -> (Vec<String>, TaskTables) {
    let mut tables = TaskTables {
        outcomes: Vec::new(),
        links: Vec::new(),
        lost: Vec::new(),
    };
    let mut ids = Vec::new();
    for index in 0..skills {
        // One observed task attributed to this revision, and one baseline
        // turn with no link at all, under the same oracle scope. A shared
        // scope makes every baseline comparable to every skill; distinct
        // scopes are the ordinary case, where each skill has one.
        let id = format!("skill-{index}");
        let scope = if shared_scope {
            "shared-oracle".to_string()
        } else {
            format!("oracle-{index}")
        };
        tables.outcomes.push(outcome(
            &format!("observed-{index}"),
            &format!("turn-{index}"),
            true,
            &scope,
        ));
        tables.links.push(link(&format!("observed-{index}"), &id));
        tables.outcomes.push(outcome(
            &format!("baseline-{index}"),
            &format!("baseline-turn-{index}"),
            false,
            &scope,
        ));
        ids.push(id);
    }
    (ids, tables)
}

#[test]
fn usage_stats_do_not_rescan_every_baseline_for_every_revision() {
    let (ids, tables) = corpus(80, false);

    // With one oracle scope per skill, each revision's comparison group is
    // its own baseline turn.
    assert_eq!(ids.len(), 80);
    for id in &ids {
        let row = tables.usage_counts(id);
        assert_eq!(row.tasks_with, 1);
        assert_eq!(row.passed_with, 1);
        assert_eq!(row.baseline_tasks, 1);
        assert_eq!(row.baseline_passes, 0);
        assert_eq!(row.gym_tasks, 0);
    }
}

#[test]
fn usage_stats_compare_against_every_baseline_sharing_a_scope() {
    let (ids, tables) = corpus(40, true);
    assert_eq!(ids.len(), 40);
    for id in &ids {
        let row = tables.usage_counts(id);
        assert_eq!(row.tasks_with, 1);
        assert_eq!(
            row.baseline_tasks, 40,
            "every baseline under the shared oracle is comparable"
        );
        assert_eq!(row.baseline_passes, 0);
    }
}

#[test]
fn usage_stats_keep_scopes_and_attempts_separate() {
    // Two source scopes: only baselines under a scope this skill was
    // actually observed in may count as its comparison group. A second
    // attempt on the same turn must not double-count it.
    let tables = TaskTables {
        outcomes: vec![
            outcome("observed-a", "turn-a", true, "oracle-a"),
            outcome("baseline-a", "turn-b", true, "oracle-a"),
            outcome("baseline-b", "turn-c", false, "oracle-b"),
            outcome("baseline-a2", "turn-b", false, "oracle-a"),
        ],
        links: vec![link("observed-a", "skill")],
        lost: Vec::new(),
    };
    let row = tables.usage_counts("skill");
    assert_eq!(row.tasks_with, 1);
    assert_eq!(
        row.baseline_tasks, 1,
        "only the observed scope's baseline turn counts, once"
    );
    assert_eq!(row.baseline_passes, 1);
}

#[test]
fn usage_stats_exclude_turns_whose_evidence_was_lost() {
    let mut incomplete = outcome("observed-b", "turn-b", true, "oracle");
    incomplete.evidence_complete = false;
    let mut skipped = outcome("observed-c", "turn-c", true, "oracle");
    skipped.source_kind = "gate_skipped".to_string();
    let mut gym = outcome("observed-d", "turn-d", true, "oracle");
    gym.production = false;
    let tables = TaskTables {
        outcomes: vec![
            outcome("observed-a", "turn-a", true, "oracle"),
            incomplete,
            skipped,
            gym,
            outcome("lost", "turn-e", true, "oracle"),
            outcome("baseline", "turn-f", true, "oracle"),
            outcome("lost-baseline", "turn-g", true, "oracle"),
        ],
        links: vec![
            link("observed-a", "skill"),
            link("observed-b", "skill"),
            link("observed-c", "skill"),
            link("observed-d", "skill"),
            link("lost", "skill"),
        ],
        lost: vec![
            LostTurn {
                turn_id: "turn-e".to_string(),
                production: true,
            },
            LostTurn {
                turn_id: "turn-g".to_string(),
                production: true,
            },
            // The same turn outside production is another matter.
            LostTurn {
                turn_id: "turn-a".to_string(),
                production: false,
            },
        ],
    };
    assert_eq!(
        tables.usage_counts("skill"),
        UsageCounts {
            tasks_with: 1,
            passed_with: 1,
            gym_tasks: 1,
            baseline_tasks: 1,
            baseline_passes: 1
        }
    );
}

#[test]
fn usage_stats_distinguish_an_absent_baseline_from_a_failing_one() {
    let observed = || outcome("observed", "turn-a", true, "oracle");
    let alone = TaskTables {
        outcomes: vec![observed()],
        links: vec![link("observed", "skill")],
        lost: Vec::new(),
    };
    assert_eq!(alone.usage_counts("skill").baseline_tasks, 0);
    let compared = TaskTables {
        outcomes: vec![observed(), outcome("baseline", "turn-b", false, "oracle")],
        links: vec![link("observed", "skill")],
        lost: Vec::new(),
    };
    assert_eq!(compared.usage_counts("skill").baseline_tasks, 1);
    assert_eq!(compared.usage_counts("skill").baseline_passes, 0);
    assert_eq!(compared.usage_counts("other").baseline_tasks, 0);
}
