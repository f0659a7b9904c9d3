use island_strategy::directive::{
    DirectiveError, DirectiveStatus, Intent, Priority, StrategicDirective,
};
use island_strategy::expedition::ExpeditionState;
use island_strategy::faction::{ConceptKey, FactionState};
use island_strategy::geography::{Geography, LocationRecord, RouteOption};
use island_strategy::keyed::StrSet;
use island_strategy::utility::intent_goal_row;

const BEACH: &str = "world.cell.black_beach";
const ESTATE: &str = "world.cell.damaged_estate";
const LANDING: &str = "world.cell.river_landing";

fn michael() -> String {
    ConceptKey::Michael.faction_id()
}

fn a_campaign() -> (ExpeditionState, Geography) {
    let geography = Geography::black_beach_vertical_slice();
    let mut state = ExpeditionState::new(42, vec!["character.protagonist.captain".into()], BEACH)
        .expect("a fresh campaign constructs");
    state.factions.insert(michael(), FactionState::new());
    state
        .factions
        .insert(ConceptKey::Pirates.faction_id(), FactionState::new());
    (state, geography)
}

fn an_attack_on(cell_id: &str) -> StrategicDirective {
    StrategicDirective {
        issuing_character_id: "character.protagonist.captain".into(),
        target_node_id: Some(cell_id.to_owned()),
        acceptable_risk: 9,
        ..StrategicDirective::new("directive.take_the_estate", &michael(), Intent::Attack)
    }
}

fn aimed(id: &str, intent: Intent, cell_id: &str) -> StrategicDirective {
    StrategicDirective {
        target_node_id: Some(cell_id.to_owned()),
        ..StrategicDirective::new(id, &michael(), intent)
    }
}

#[test]
fn an_attack_that_supply_will_not_cover_names_a_blocker_before_confirmation() {
    let (mut state, geography) = a_campaign();
    state
        .set_control(BEACH, Some(michael()), &geography)
        .expect("the beach exists");
    state
        .set_control(ESTATE, Some(ConceptKey::Pirates.faction_id()), &geography)
        .expect("the estate exists");

    let mut attack = an_attack_on(ESTATE);
    attack.resource_limit.insert("resource.powder".into(), 7);

    let before = state.clone();
    let explanation = state.explain_directive(&attack, &geography);
    assert_eq!(state, before, "explaining is not a mutation");

    assert!(
        explanation
            .blockers
            .iter()
            .any(|blocker| blocker.contains("supply is short")),
        "an attack with nothing behind it must say so: {:?}",
        explanation.blockers
    );

    state
        .factions
        .get_mut(&michael())
        .expect("the faction is in the campaign")
        .resources
        .insert("resource.powder".into(), 40);
    let stocked = state.explain_directive(&attack, &geography);
    assert!(
        !stocked
            .blockers
            .iter()
            .any(|blocker| blocker.contains("supply is short")),
        "supply covers it now: {:?}",
        stocked.blockers
    );
}

#[test]
fn a_contested_road_to_the_target_is_named() {
    let (mut state, geography) = a_campaign();
    state
        .set_control(BEACH, Some(michael()), &geography)
        .expect("the beach exists");
    let directive = StrategicDirective {
        target_node_id: Some(ESTATE.to_owned()),
        acceptable_risk: 9,
        ..StrategicDirective::new("directive.hold_the_estate", &michael(), Intent::Protect)
    };

    state
        .set_control(ESTATE, Some(michael()), &geography)
        .expect("the estate exists");
    assert!(
        state
            .explain_directive(&directive, &geography)
            .blockers
            .is_empty(),
        "the faction holds both ends of that road"
    );

    state
        .set_control(ESTATE, Some(ConceptKey::Pirates.faction_id()), &geography)
        .expect("the estate exists");
    let blockers = state.explain_directive(&directive, &geography).blockers;
    assert!(
        blockers.iter().any(|blocker| blocker.contains("contested")
            && blocker.contains("world.portal.black_beach_to_damaged_estate")),
        "the contested road must be named: {blockers:?}"
    );
}

#[test]
fn a_competing_standing_directive_is_named() {
    let (mut state, geography) = a_campaign();
    state
        .issue_directive(
            aimed("directive.stay_off_the_landing", Intent::Avoid, LANDING),
            &geography,
        )
        .expect("a first directive is legal");

    let expand = aimed("directive.take_the_landing", Intent::Expand, LANDING);
    let blockers = state.explain_directive(&expand, &geography).blockers;
    assert!(
        blockers
            .iter()
            .any(|blocker| blocker.contains("directive.stay_off_the_landing")),
        "the standing directive that argues the other way must be named: {blockers:?}"
    );
}

#[test]
fn an_explanation_carries_no_score() {
    let (mut state, geography) = a_campaign();
    state
        .set_control(BEACH, Some(michael()), &geography)
        .expect("the beach exists");
    state
        .factions
        .get_mut(&michael())
        .expect("the faction is in the campaign")
        .resources
        .insert("resource.powder".into(), 3);

    let mut attack = an_attack_on(ESTATE);
    attack.resource_limit.clear();
    attack.resource_limit.insert("resource.powder".into(), 7);
    let explanation = state.explain_directive(&attack, &geography);

    let allowed = ["9", "7", "3"];
    let mut fields = vec![
        explanation.goal.clone(),
        explanation.why_target.clone(),
        explanation.resources.clone(),
        explanation.withdrawal_conditions.clone(),
    ];
    fields.extend(explanation.blockers.iter().cloned());
    for field in fields {
        for run in field
            .split(|c: char| !c.is_ascii_digit())
            .filter(|run| !run.is_empty())
        {
            assert!(
                allowed.contains(&run),
                "{run:?} is a number the player never stated, in {field:?}"
            );
        }
    }
}

#[test]
fn an_explanation_describes_the_table_that_scores_it() {
    for intent in Intent::ALL {
        let words = intent.explained_goal();
        assert!(!words.is_empty(), "{intent:?} explains itself as nothing");
        let moves_nothing = intent_goal_row(intent).iter().all(|pull| *pull == 0);
        assert_eq!(
            moves_nothing,
            words.starts_with("nothing yet"),
            "{intent:?}: the table and the explanation disagree about whether it does anything"
        );
    }
}

#[test]
fn the_explanation_says_whether_the_party_could_help() {
    let (state, geography) = a_campaign();
    let near = aimed("directive.near", Intent::Protect, ESTATE);
    assert!(state.explain_directive(&near, &geography).party_could_help);

    let unreachable = aimed(
        "directive.far",
        Intent::Investigate,
        "world.cell.tomb_archive_core",
    );
    assert!(
        !state
            .explain_directive(&unreachable, &geography)
            .party_could_help,
        "the tomb is behind gates the party has not opened"
    );
}

#[test]
fn issuing_refuses_before_it_mutates() {
    let (mut state, geography) = a_campaign();
    let before = state.clone();

    let malformed = StrategicDirective::new("Directive.Shouting", &michael(), Intent::Protect);
    assert!(matches!(
        state.issue_directive(malformed, &geography),
        Err(DirectiveError::Id(_))
    ));

    let wrong_prefix = StrategicDirective::new("order.take_it", &michael(), Intent::Protect);
    assert!(matches!(
        state.issue_directive(wrong_prefix, &geography),
        Err(DirectiveError::Id(_))
    ));

    let stranger = StrategicDirective::new(
        "directive.to_nobody",
        "faction.not_in_this_campaign",
        Intent::Protect,
    );
    assert_eq!(
        state.issue_directive(stranger, &geography),
        Err(DirectiveError::UnknownFaction {
            faction_id: "faction.not_in_this_campaign".into()
        })
    );

    let nowhere = aimed(
        "directive.to_nowhere",
        Intent::Protect,
        "world.cell.invented_by_a_typo",
    );
    assert_eq!(
        state.issue_directive(nowhere, &geography),
        Err(DirectiveError::UnknownCell {
            cell_id: "world.cell.invented_by_a_typo".into()
        })
    );

    assert_eq!(state, before, "a refusal writes nothing");
}

#[test]
fn a_second_directive_saying_the_same_thing_is_refused() {
    let (mut state, geography) = a_campaign();
    let first = aimed("directive.hold_it", Intent::Protect, ESTATE);
    state
        .issue_directive(first.clone(), &geography)
        .expect("the first is legal");

    let again = StrategicDirective {
        id: "directive.hold_it_again".into(),
        ..first.clone()
    };
    assert_eq!(
        state.issue_directive(again, &geography),
        Err(DirectiveError::AlreadyStanding {
            directive_id: "directive.hold_it_again".into(),
            existing_id: "directive.hold_it".into(),
        })
    );
    assert_eq!(
        state.issue_directive(first, &geography),
        Err(DirectiveError::DuplicateDirective {
            directive_id: "directive.hold_it".into()
        }),
        "an ID is a key, and two live directives cannot share one"
    );

    let elsewhere = StrategicDirective {
        id: "directive.hold_the_landing".into(),
        target_node_id: Some(LANDING.to_owned()),
        ..StrategicDirective::new("unused", &michael(), Intent::Protect)
    };
    assert!(state.issue_directive(elsewhere, &geography).is_ok());
}

#[test]
fn a_directive_persists_until_one_of_five_endings() {
    assert_eq!(DirectiveStatus::TERMINAL.len(), 5);
    for ending in DirectiveStatus::TERMINAL {
        let (mut state, geography) = a_campaign();
        state
            .issue_directive(
                StrategicDirective::new("directive.standing", &michael(), Intent::Develop),
                &geography,
            )
            .expect("legal");
        assert_eq!(state.active_directives(&michael()).len(), 1);

        state
            .mark_directive("directive.standing", ending)
            .expect("an ending is reachable");
        assert_eq!(
            state.directives.get("directive.standing").unwrap().state,
            ending,
            "the ending is recorded"
        );
        assert!(
            state.active_directives(&michael()).is_empty(),
            "an ended directive asks for nothing"
        );
        assert!(state.directives.contains_key("directive.standing"));
        assert_eq!(
            state.mark_directive("directive.standing", DirectiveStatus::Completed),
            Err(DirectiveError::AlreadyEnded {
                directive_id: "directive.standing".into(),
                state: ending,
            }),
            "an ending cannot be re-ended"
        );
    }
}

#[test]
fn there_is_one_writer_of_a_directives_state() {
    let (mut state, geography) = a_campaign();
    state
        .issue_directive(
            StrategicDirective::new("directive.standing", &michael(), Intent::Develop),
            &geography,
        )
        .expect("legal");
    assert_eq!(
        state.mark_directive("directive.standing", DirectiveStatus::Active),
        Err(DirectiveError::NotAnEnding {
            state: DirectiveStatus::Active
        })
    );
    assert_eq!(
        state.mark_directive("directive.no_such_thing", DirectiveStatus::Completed),
        Err(DirectiveError::UnknownDirective {
            directive_id: "directive.no_such_thing".into()
        })
    );
    state.cancel_directive("directive.standing").expect("legal");
    assert_eq!(
        state.directives.get("directive.standing").unwrap().state,
        DirectiveStatus::Cancelled
    );
}

#[test]
fn superseding_is_explicit_and_all_or_nothing() {
    let (mut state, geography) = a_campaign();
    let standing = aimed("directive.hold_it", Intent::Protect, ESTATE);
    state
        .issue_directive(standing.clone(), &geography)
        .expect("legal");

    let before = state.clone();
    let illegal = StrategicDirective {
        id: "directive.nowhere".into(),
        target_node_id: Some("world.cell.invented_by_a_typo".into()),
        ..standing.clone()
    };
    assert_eq!(
        state.supersede_directive("directive.hold_it", illegal, &geography),
        Err(DirectiveError::UnknownCell {
            cell_id: "world.cell.invented_by_a_typo".into()
        })
    );
    assert_eq!(state, before, "a refused replacement changes nothing");

    let replacement = StrategicDirective {
        id: "directive.hold_it_harder".into(),
        priority: Priority::Urgent,
        ..standing
    };
    state
        .supersede_directive("directive.hold_it", replacement, &geography)
        .expect("superseding is how you say it differently");
    assert_eq!(
        state.directives.get("directive.hold_it").unwrap().state,
        DirectiveStatus::Superseded
    );
    assert_eq!(
        state.directives.get("directive.hold_it_harder").unwrap().state,
        DirectiveStatus::Active
    );
    assert_eq!(
        state.supersede_directive(
            "directive.hold_it",
            StrategicDirective::new("directive.third", &michael(), Intent::Protect),
            &geography,
        ),
        Err(DirectiveError::AlreadyEnded {
            directive_id: "directive.hold_it".into(),
            state: DirectiveStatus::Superseded,
        }),
        "an ended directive cannot be superseded twice"
    );
}

#[test]
fn the_stored_directive_carries_the_explanation_the_player_saw() {
    let (mut state, geography) = a_campaign();
    let attack = an_attack_on(ESTATE);
    let shown = state.explain_directive(&attack, &geography);
    let stored = state.issue_directive(attack, &geography).expect("legal");
    assert_eq!(shown, stored);
    let kept = state.directives.get("directive.take_the_estate").unwrap();
    assert_eq!(kept.explanation.as_ref(), Some(&shown));
    assert_eq!(kept.blocking_reasons, shown.blockers);
}

#[test]
fn an_issued_directive_is_active_and_opposing_intents_say_so() {
    let (mut state, geography) = a_campaign();
    state
        .issue_directive(aimed("directive.hold_it", Intent::Protect, ESTATE), &geography)
        .expect("legal");
    let kept = state.directives.get("directive.hold_it").unwrap();
    assert_eq!(kept.state, DirectiveStatus::Active);
    assert!(Intent::Expand.opposes(Intent::Avoid));
    assert!(Intent::Avoid.opposes(Intent::Expand));
    assert!(!Intent::Protect.opposes(Intent::Protect));
    for ending in DirectiveStatus::TERMINAL {
        assert!(ending.is_terminal());
    }
    assert!(!DirectiveStatus::Active.is_terminal());
}

#[test]
fn a_replacement_carrying_the_replaced_directives_own_id_is_refused() {
    let (mut state, geography) = a_campaign();
    let standing = aimed("directive.hold_it", Intent::Protect, ESTATE);
    state
        .issue_directive(standing.clone(), &geography)
        .expect("legal");
    let before = state.clone();
    let same_id = StrategicDirective {
        priority: Priority::Urgent,
        ..standing
    };
    assert_eq!(
        state.supersede_directive("directive.hold_it", same_id, &geography),
        Err(DirectiveError::DuplicateDirective {
            directive_id: "directive.hold_it".into()
        })
    );
    assert_eq!(state, before, "the save keeps the standing directive, active");
    assert_eq!(
        state.directives.get("directive.hold_it").unwrap().state,
        DirectiveStatus::Active
    );
}

fn a_cell(id: &str) -> LocationRecord {
    LocationRecord {
        id: id.to_owned(),
        display_name: id.to_owned(),
        region_id: "world.region.test".to_owned(),
        controller: None,
    }
}

fn a_road(id: &str, from: &str, to: &str) -> RouteOption {
    RouteOption {
        id: id.to_owned(),
        from_location_id: from.to_owned(),
        to_location_id: to.to_owned(),
        time_cost_minutes: 10,
        supply_cost: 0,
        risk_level: 1,
        gate: None,
    }
}

#[test]
fn a_walk_through_a_cell_the_graph_does_not_carry_is_never_counted() {
    let nowhere = "world.cell.nowhere";
    let geography = Geography {
        locations: vec![a_cell(BEACH), a_cell(ESTATE)],
        routes: vec![
            a_road("world.portal.beach_to_nowhere", BEACH, nowhere),
            a_road("world.portal.nowhere_to_estate", nowhere, ESTATE),
        ],
    };
    let mut state = ExpeditionState::new(42, vec!["character.protagonist.captain".into()], BEACH)
        .expect("a fresh campaign constructs");
    state.factions.insert(michael(), FactionState::new());
    state
        .set_control(BEACH, Some(michael()), &geography)
        .expect("the beach exists");
    let gates = StrSet::new();
    assert_eq!(geography.step_distance(BEACH, ESTATE, &gates), None);
    assert!(geography.next_step_toward(BEACH, ESTATE, &gates).is_none());

    let attack = an_attack_on(ESTATE);
    let first = state.explain_directive(&attack, &geography);
    assert!(!first.party_could_help, "the only walk runs through a cell the graph lacks");
    assert!(
        first.blockers.iter().all(|b| !b.contains("world.portal.")),
        "no road of an uncounted walk is reported: {:?}",
        first.blockers
    );
    assert_eq!(state.explain_directive(&attack, &geography), first);
}

#[test]
fn a_road_between_two_carried_cells_is_walked_beside_one_that_is_not() {
    let nowhere = "world.cell.nowhere";
    let geography = Geography {
        locations: vec![a_cell(BEACH), a_cell(ESTATE)],
        routes: vec![
            a_road("world.portal.beach_to_nowhere", BEACH, nowhere),
            a_road("world.portal.nowhere_to_estate", nowhere, ESTATE),
            a_road("world.portal.beach_to_estate", BEACH, ESTATE),
        ],
    };
    let gates = StrSet::new();
    assert_eq!(geography.step_distance(BEACH, ESTATE, &gates), Some(1));
    assert_eq!(
        geography
            .next_step_toward(BEACH, ESTATE, &gates)
            .map(|r| r.id.clone()),
        Some("world.portal.beach_to_estate".to_owned())
    );
    let state = ExpeditionState::new(42, vec!["character.protagonist.captain".into()], BEACH)
        .expect("a fresh campaign constructs");
    let near = aimed("directive.near", Intent::Protect, ESTATE);
    assert!(state.explain_directive(&near, &geography).party_could_help);
}
