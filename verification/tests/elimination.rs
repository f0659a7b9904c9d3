use island_strategy::building::{
    BuildingDefinition, BuildingDefinitions, BuildingSocket, BuildingState, CaptureRules,
    ProductionOutput, ProductionRule, RuinState, SocketKind, TierState, CELL_CAPACITY_CELLS,
    FIRST_TIER,
};
use island_strategy::elimination::{recovery_chain, RecoveryLink, ALLY_REFUGE_TRUST_FLOOR};
use island_strategy::expedition::ExpeditionState;
use island_strategy::faction::{ConceptKey, FactionState, Relationship, StrategicState};
use island_strategy::geography::Geography;
use island_strategy::keyed::{StrMap, StrSet};
use island_strategy::production::MachineFamily;
use island_strategy::tick::StrategicEvent;

const BEACH: &str = "world.cell.black_beach";
const PRODUCER: &str = "building.test.producer";
const PLAIN: &str = "building.test.plain";
const SCAFFOLD: &str = "building.test.scaffold";
const DEMOLISHED: &str = "building.test.destroy_only";
const HOURS_IN_A_DAY: u32 = 24;

fn pirates() -> String {
    ConceptKey::Pirates.faction_id()
}

fn elves() -> String {
    ConceptKey::Elves.faction_id()
}

fn one_actor() -> StrMap<u32> {
    let mut composition = StrMap::new();
    composition.insert("actor.example".to_owned(), 3u32);
    composition
}

fn a_definition(id: &str, construction_hours: u32) -> BuildingDefinition {
    BuildingDefinition {
        id: id.to_owned(),
        faction_compatibility: vec![ConceptKey::Pirates, ConceptKey::Elves],
        function: "a test building".into(),
        footprint_cells: 3,
        clearance_cells: 1,
        height_class: "needs decision".into(),
        entrance_sockets: vec![BuildingSocket {
            id: "socket.door".into(),
            kind: SocketKind::Entrance,
            offset_cells: 0,
        }],
        tier_states: vec![TierState {
            tier: FIRST_TIER,
            construction_hours,
            construction_requirements: StrSet::new(),
            hit_points: 100,
            notes: String::new(),
        }],
        capture_rules: CaptureRules::Capturable,
        ruin_state: RuinState::LeavesRubble { footprint_cells: 4 },
        ..BuildingDefinition::default()
    }
}

fn a_producing_definition() -> BuildingDefinition {
    BuildingDefinition {
        production: vec![ProductionRule {
            id: "rule.test.output".into(),
            output: ProductionOutput::Machine {
                family: MachineFamily::default(),
            },
            output_key: "machine.example".into(),
            amount: 1,
            interval_hours: 6,
            minimum_tier: FIRST_TIER,
            cost: StrMap::new(),
        }],
        ..a_definition(PRODUCER, 0)
    }
}

fn registry() -> BuildingDefinitions {
    let mut registry = BuildingDefinitions::new();
    for definition in [
        a_producing_definition(),
        a_definition(PLAIN, 0),
        a_definition(SCAFFOLD, 8),
        BuildingDefinition {
            capture_rules: CaptureRules::DestroyOnly,
            ..a_definition(DEMOLISHED, 0)
        },
    ] {
        registry
            .insert(definition)
            .expect("the fixture definitions load");
    }
    registry
}

fn a_campaign() -> ExpeditionState {
    let mut state = ExpeditionState::new(7, vec!["character.protagonist.captain".into()], BEACH)
        .expect("a fresh campaign constructs");
    state.factions.insert(pirates(), FactionState::new());
    state.factions.insert(elves(), FactionState::new());
    state
}

fn trust(state: &mut ExpeditionState, from: &str, toward: &str, trust: i16) {
    state
        .factions
        .get_mut(from)
        .expect("the fixture carries this faction")
        .relationships
        .insert(
            toward.to_owned(),
            Relationship {
                trust,
                ..Relationship::default()
            },
        );
}

fn chain(state: &ExpeditionState, faction_id: &str, geography: &Geography) -> Vec<RecoveryLink> {
    recovery_chain(state, faction_id, geography, &registry())
}

fn faction<'a>(state: &'a ExpeditionState, faction_id: &str) -> &'a FactionState {
    state.factions.get(faction_id).expect("the fixture carries this faction")
}

#[test]
fn the_links_are_brief_section_sixteens_list_in_the_briefs_order() {
    assert_eq!(
        RecoveryLink::ALL,
        [
            RecoveryLink::OperationalCoreBuilding,
            RecoveryLink::RemainingPopulation,
            RecoveryLink::WorkerProductionOrRecruitment,
            RecoveryLink::ResourceReserve,
            RecoveryLink::ControlledSettlement,
            RecoveryLink::MobileRecoveryForce,
            RecoveryLink::AlliedRefuge,
            RecoveryLink::ValidConstructionSite,
            RecoveryLink::AuthoredRecoveryEvent,
            RecoveryLink::NeedsDecision,
        ]
    );
    let set: std::collections::BTreeSet<RecoveryLink> = RecoveryLink::ALL.into_iter().collect();
    assert_eq!(set.into_iter().collect::<Vec<_>>(), RecoveryLink::ALL);
}

#[test]
fn every_link_is_exhausted_one_at_a_time_and_the_last_one_ends_the_faction() {
    let geography = Geography::black_beach_vertical_slice();
    let definitions = registry();
    let mut state = a_campaign();

    state
        .set_control(BEACH, Some(pirates()), &geography)
        .expect("the beach is a real cell");
    for (instance, def_id) in [
        ("building_instance.test.works", PRODUCER),
        ("building_instance.test.hut", PLAIN),
    ] {
        state
            .place_building(instance, def_id, BEACH, &pirates(), &geography, &definitions)
            .expect("the fixture envelopes fit");
    }
    state
        .factions
        .get_mut(&pirates())
        .expect("the fixture carries this faction")
        .resources
        .insert("resource.example".into(), 5);
    state
        .raise_force(
            "force.test.column",
            &pirates(),
            BEACH,
            StrSet::new(),
            one_actor(),
            "",
            &geography,
        )
        .expect("a force raises on a real cell");
    trust(&mut state, &pirates(), &elves(), ALLY_REFUGE_TRUST_FLOOR);

    assert_eq!(
        chain(&state, &pirates(), &geography),
        vec![
            RecoveryLink::OperationalCoreBuilding,
            RecoveryLink::WorkerProductionOrRecruitment,
            RecoveryLink::ResourceReserve,
            RecoveryLink::ControlledSettlement,
            RecoveryLink::MobileRecoveryForce,
            RecoveryLink::AlliedRefuge,
            RecoveryLink::ValidConstructionSite,
        ],
        "seven of section 16's nine links; the other two have no state to read"
    );
    assert_eq!(
        state.eliminate_if_exhausted(&pirates(), &geography, &definitions),
        Vec::new()
    );

    let lost = |state: &mut ExpeditionState, link: RecoveryLink| {
        assert_eq!(
            state.eliminate_if_exhausted(&pirates(), &geography, &definitions),
            vec![StrategicEvent::RecoveryLinkLost {
                faction_id: pirates(),
                link,
            }],
            "exactly one link goes, and it is named"
        );
        assert!(
            !faction(state, &pirates()).eliminated,
            "a faction with links left is not eliminated"
        );
    };

    state
        .factions
        .get_mut(&pirates())
        .expect("the fixture carries this faction")
        .resources
        .clear();
    lost(&mut state, RecoveryLink::ResourceReserve);

    state.forces.clear();
    lost(&mut state, RecoveryLink::MobileRecoveryForce);

    trust(&mut state, &pirates(), &elves(), ALLY_REFUGE_TRUST_FLOOR - 1);
    lost(&mut state, RecoveryLink::AlliedRefuge);

    state
        .ruin_building("building_instance.test.works")
        .expect("a standing building can be brought down");
    lost(&mut state, RecoveryLink::WorkerProductionOrRecruitment);

    state
        .ruin_building("building_instance.test.hut")
        .expect("a standing building can be brought down");
    lost(&mut state, RecoveryLink::OperationalCoreBuilding);

    state
        .place_building(
            "building_instance.test.scaffold",
            SCAFFOLD,
            BEACH,
            &pirates(),
            &geography,
            &definitions,
        )
        .expect("the third envelope is the last that fits");
    assert_eq!(
        state.envelope_cells_used(BEACH, &definitions),
        CELL_CAPACITY_CELLS
    );
    lost(&mut state, RecoveryLink::ValidConstructionSite);

    state
        .set_control(BEACH, None, &geography)
        .expect("the beach is a real cell");
    assert_eq!(chain(&state, &pirates(), &geography), Vec::new());
    let day = state.campaign_day;
    assert_eq!(
        state.eliminate_if_exhausted(&pirates(), &geography, &definitions),
        vec![
            StrategicEvent::RecoveryLinkLost {
                faction_id: pirates(),
                link: RecoveryLink::ControlledSettlement,
            },
            StrategicEvent::FactionEliminated {
                faction_id: pirates(),
                day,
            },
        ]
    );

    let gone = faction(&state, &pirates());
    assert!(gone.eliminated);
    assert_eq!(gone.strategic_state, StrategicState::Desperate);
    assert!(gone.current_goals.is_empty(), "scheduling stops");
    assert_eq!(
        state.eliminate_if_exhausted(&pirates(), &geography, &definitions),
        Vec::new()
    );
}

#[test]
fn one_allied_refuge_is_the_whole_chain_and_the_faction_survives() {
    let geography = Geography::black_beach_vertical_slice();
    let definitions = registry();
    let mut state = a_campaign();

    state
        .set_control(BEACH, Some(pirates()), &geography)
        .expect("the beach is a real cell");
    trust(&mut state, &pirates(), &elves(), ALLY_REFUGE_TRUST_FLOOR);
    state.eliminate_if_exhausted(&pirates(), &geography, &definitions);
    assert!(faction(&state, &pirates()).has_ever_held);

    state
        .set_control(BEACH, None, &geography)
        .expect("the beach is a real cell");
    assert_eq!(
        chain(&state, &pirates(), &geography),
        vec![RecoveryLink::AlliedRefuge],
        "brief section 16: an allied refuge is a viable recovery path"
    );

    let events = state.eliminate_if_exhausted(&pirates(), &geography, &definitions);
    assert!(
        !events
            .iter()
            .any(|event| matches!(event, StrategicEvent::FactionEliminated { .. })),
        "a faction with one link left is not eliminated"
    );
    assert!(!faction(&state, &pirates()).eliminated);
}

#[test]
fn an_eliminated_neighbour_shelters_nobody() {
    let geography = Geography::black_beach_vertical_slice();
    let definitions = registry();
    let mut state = a_campaign();

    state
        .set_control(BEACH, Some(pirates()), &geography)
        .expect("the beach is a real cell");
    trust(&mut state, &pirates(), &elves(), ALLY_REFUGE_TRUST_FLOOR);
    state.eliminate_if_exhausted(&pirates(), &geography, &definitions);
    state
        .set_control(BEACH, None, &geography)
        .expect("the beach is a real cell");
    assert_eq!(
        chain(&state, &pirates(), &geography),
        vec![RecoveryLink::AlliedRefuge]
    );

    state
        .factions
        .get_mut(&elves())
        .expect("the fixture carries this faction")
        .eliminated = true;
    assert_eq!(chain(&state, &pirates(), &geography), Vec::new());
    let day = state.campaign_day;
    assert!(state
        .eliminate_if_exhausted(&pirates(), &geography, &definitions)
        .contains(&StrategicEvent::FactionEliminated {
            faction_id: pirates(),
            day,
        }));
}

#[test]
fn a_faction_that_has_never_held_anything_is_never_eliminated() {
    let geography = Geography::black_beach_vertical_slice();
    let definitions = registry();
    let mut state = a_campaign();

    assert_eq!(chain(&state, &pirates(), &geography), Vec::new());
    for _ in 0..HOURS_IN_A_DAY {
        assert_eq!(
            state.eliminate_if_exhausted(&pirates(), &geography, &definitions),
            Vec::new(),
            "an empty chain that was always empty is not a loss"
        );
    }
    assert!(!faction(&state, &pirates()).eliminated);
    assert!(!faction(&state, &pirates()).has_ever_held);

    state
        .set_control(BEACH, Some(pirates()), &geography)
        .expect("the beach is a real cell");
    state.eliminate_if_exhausted(&pirates(), &geography, &definitions);
    assert!(faction(&state, &pirates()).has_ever_held);
    state
        .set_control(BEACH, None, &geography)
        .expect("the beach is a real cell");
    let day = state.campaign_day;
    assert!(state
        .eliminate_if_exhausted(&pirates(), &geography, &definitions)
        .contains(&StrategicEvent::FactionEliminated {
            faction_id: pirates(),
            day,
        }));
}

#[test]
fn elimination_transitions_each_building_by_its_own_record() {
    let geography = Geography::black_beach_vertical_slice();
    let definitions = registry();
    let mut state = a_campaign();

    state
        .set_control(BEACH, Some(pirates()), &geography)
        .expect("the beach is a real cell");
    for (instance, def_id) in [
        ("building_instance.test.hut", PLAIN),
        ("building_instance.test.magazine", DEMOLISHED),
    ] {
        state
            .place_building(instance, def_id, BEACH, &pirates(), &geography, &definitions)
            .expect("the fixture envelopes fit");
    }

    state.eliminate_faction(&pirates(), &geography, &definitions);

    let hut = state.buildings.get("building_instance.test.hut").unwrap();
    assert_eq!(
        hut.state,
        BuildingState::Operational,
        "a capturable building is left standing; nobody has taken it"
    );
    assert_eq!(hut.faction_id, pirates());
    assert_eq!(
        state
            .buildings
            .get("building_instance.test.magazine")
            .unwrap()
            .state,
        BuildingState::Ruined,
        "a destroy-only building goes down with its faction"
    );
    assert!(
        !state.ownership.contains_key(BEACH),
        "territory becomes available to competitors"
    );
}

#[test]
fn elimination_halts_the_forces_without_disbanding_them() {
    let geography = Geography::black_beach_vertical_slice();
    let definitions = registry();
    let mut state = a_campaign();

    state
        .raise_force(
            "force.test.column",
            &pirates(),
            BEACH,
            StrSet::new(),
            one_actor(),
            "",
            &geography,
        )
        .expect("a force raises on a real cell");
    let destination = geography
        .all_location_ids()
        .into_iter()
        .find(|cell_id| cell_id != BEACH)
        .expect("the slice has more than one cell");
    let marching = state
        .dispatch_force("force.test.column", &destination, &geography)
        .is_ok();

    state.eliminate_faction(&pirates(), &geography, &definitions);

    let force = state.forces.get("force.test.column").unwrap();
    assert!(!force.is_marching(), "an eliminated faction's forces stop");
    assert_eq!(force.destination_cell_id, None);
    assert_eq!(force.strength, 3, "the body is still whole");
    assert_eq!(*force.composition.get("actor.example").unwrap(), 3);
    assert!(
        marching || force.route.is_empty(),
        "the fixture either marched and was halted, or never left"
    );
}

#[test]
fn cthulhu_cannot_be_eliminated_while_its_rules_are_open() {
    let geography = Geography::black_beach_vertical_slice();
    let definitions = registry();
    let mut state = a_campaign();
    let cthulhu = ConceptKey::Cthulhu.faction_id();
    state.factions.insert(cthulhu.clone(), FactionState::new());

    assert_eq!(
        chain(&state, &cthulhu, &geography),
        vec![RecoveryLink::NeedsDecision]
    );
    state
        .set_control(BEACH, Some(cthulhu.clone()), &geography)
        .expect("the beach is a real cell");
    state.eliminate_if_exhausted(&cthulhu, &geography, &definitions);
    state
        .set_control(BEACH, None, &geography)
        .expect("the beach is a real cell");

    let events = state.eliminate_if_exhausted(&cthulhu, &geography, &definitions);
    assert_eq!(
        events,
        vec![
            StrategicEvent::RecoveryLinkLost {
                faction_id: cthulhu.clone(),
                link: RecoveryLink::ControlledSettlement,
            },
            StrategicEvent::RecoveryLinkLost {
                faction_id: cthulhu.clone(),
                link: RecoveryLink::ValidConstructionSite,
            },
        ]
    );
    assert!(!faction(&state, &cthulhu).eliminated);
    assert!(!chain(&state, &pirates(), &geography).contains(&RecoveryLink::NeedsDecision));
}

#[test]
fn the_two_unbacked_links_are_never_reported() {
    let geography = Geography::black_beach_vertical_slice();
    let mut state = a_campaign();
    state
        .set_control(BEACH, Some(pirates()), &geography)
        .expect("the beach is a real cell");
    state
        .factions
        .get_mut(&pirates())
        .expect("the fixture carries this faction")
        .resources
        .insert("resource.example".into(), 100);

    let held = chain(&state, &pirates(), &geography);
    assert!(!held.contains(&RecoveryLink::RemainingPopulation));
    assert!(!held.contains(&RecoveryLink::AuthoredRecoveryEvent));
}

#[test]
fn a_board_that_empties_emits_nothing_beyond_the_eliminations() {
    let geography = Geography::black_beach_vertical_slice();
    let definitions = registry();
    let mut state = ExpeditionState::new(7, vec!["character.protagonist.captain".into()], BEACH)
        .expect("a fresh campaign constructs");
    let ordinary: Vec<String> = ConceptKey::ALL
        .into_iter()
        .filter(|concept| *concept != ConceptKey::Cthulhu)
        .map(ConceptKey::faction_id)
        .collect();
    for faction_id in &ordinary {
        state.factions.insert(faction_id.clone(), FactionState::new());
        state
            .factions
            .get_mut(faction_id)
            .expect("just inserted")
            .resources
            .insert("resource.example".into(), 1);
    }
    state.eliminate_exhausted_factions(&geography, &definitions);

    for faction_id in &ordinary {
        state
            .factions
            .get_mut(faction_id)
            .expect("the fixture carries this faction")
            .resources
            .clear();
    }
    let events = state.eliminate_exhausted_factions(&geography, &definitions);
    let eliminations = events
        .iter()
        .filter(|event| matches!(event, StrategicEvent::FactionEliminated { .. }))
        .count();
    assert_eq!(eliminations, ordinary.len());
    assert_eq!(
        events.len(),
        ordinary.len() * 2,
        "one lost link and one elimination each, and nothing invented for the empty board"
    );
}

#[test]
fn an_eliminated_faction_stays_eliminated_when_asked_again() {
    let geography = Geography::black_beach_vertical_slice();
    let definitions = registry();
    let mut state = a_campaign();
    state
        .set_control(BEACH, Some(pirates()), &geography)
        .expect("the beach is a real cell");
    state.eliminate_if_exhausted(&pirates(), &geography, &definitions);
    state
        .set_control(BEACH, Some(elves()), &geography)
        .expect("the beach is a real cell");
    state.eliminate_if_exhausted(&pirates(), &geography, &definitions);
    assert!(faction(&state, &pirates()).eliminated);
    assert_eq!(
        state.eliminate_faction(&pirates(), &geography, &definitions),
        Vec::new(),
        "eliminating an eliminated faction is a no-op returning no events"
    );
    state.eliminate_exhausted_factions(&geography, &definitions);
    assert!(faction(&state, &pirates()).eliminated);
}

#[test]
fn a_building_whose_record_is_missing_is_not_ruined_with_its_faction() {
    let geography = Geography::black_beach_vertical_slice();
    let definitions = registry();
    let mut state = a_campaign();
    state
        .set_control(BEACH, Some(pirates()), &geography)
        .expect("the beach is a real cell");
    state
        .place_building("building_instance.test.magazine", DEMOLISHED, BEACH, &pirates(), &geography, &definitions)
        .expect("the fixture envelope fits");

    state.eliminate_faction(&pirates(), &geography, &BuildingDefinitions::new());

    assert_ne!(
        state.buildings.get("building_instance.test.magazine").unwrap().state,
        BuildingState::Ruined,
        "an unlookupable building is read as standing and is not ruined"
    );
}
