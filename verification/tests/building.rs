use island_strategy::building::{
    BuildingDefinition, BuildingDefinitions, BuildingError, BuildingSocket, BuildingState,
    CaptureRules, ProductionOutput, ProductionRule, RuinState, SocketKind, TierState,
    CAPTURE_HP_RESTORED, CELL_CAPACITY_CELLS, FIRST_TIER, TIER_CAP,
};
use island_strategy::expedition::ExpeditionState;
use island_strategy::faction::{ConceptKey, FactionDefinition};
use island_strategy::geography::Geography;
use island_strategy::keyed::{StrMap, StrSet};
use island_strategy::production::{
    ActorKit, MachineDefinition, MachineDefinitions, MachineFamily, ProductionError,
};

const BEACH: &str = "world.cell.black_beach";
const TERRACE: &str = "world.cell.reception_terrace";
const WORKSHOP: &str = "building.test.workshop";
const SHED: &str = "building.test.shed";
const INSTANCE: &str = "building_instance.test.first";

fn pirates() -> String {
    ConceptKey::Pirates.faction_id()
}

fn elves() -> String {
    ConceptKey::Elves.faction_id()
}

fn set(items: &[&str]) -> StrSet {
    let mut s = StrSet::new();
    for item in items {
        s.insert((*item).to_owned());
    }
    s
}

fn tiers(count: u32) -> Vec<TierState> {
    (FIRST_TIER..FIRST_TIER + count)
        .map(|tier| TierState {
            tier,
            construction_hours: 4 * tier,
            construction_requirements: if tier == FIRST_TIER {
                StrSet::new()
            } else {
                set(&[&format!("requirement.test.tier_{tier}")])
            },
            hit_points: 100 * tier,
            notes: String::new(),
        })
        .collect()
}

fn a_definition(id: &str, footprint: u32, clearance: u32) -> BuildingDefinition {
    BuildingDefinition {
        id: id.to_owned(),
        faction_compatibility: vec![ConceptKey::Pirates, ConceptKey::Michael],
        function: "a test building".into(),
        footprint_cells: footprint,
        clearance_cells: clearance,
        height_class: "needs decision".into(),
        entrance_sockets: vec![BuildingSocket {
            id: "socket.door".into(),
            kind: SocketKind::Entrance,
            offset_cells: 0,
        }],
        actor_sockets: vec![
            BuildingSocket {
                id: "socket.bench".into(),
                kind: SocketKind::Worker,
                offset_cells: 0,
            },
            BuildingSocket {
                id: "socket.muster".into(),
                kind: SocketKind::Spawn,
                offset_cells: 1.min(footprint.saturating_sub(1)),
            },
        ],
        tier_states: tiers(3),
        capture_rules: CaptureRules::Capturable,
        ruin_state: RuinState::LeavesRubble { footprint_cells: 1 },
        ..BuildingDefinition::default()
    }
}

fn registry(definitions: Vec<BuildingDefinition>) -> BuildingDefinitions {
    let mut registry = BuildingDefinitions::new();
    for definition in definitions {
        registry
            .insert(definition)
            .expect("the fixture definitions load");
    }
    registry
}

fn a_campaign(geography: &Geography, holder: &str) -> ExpeditionState {
    let mut state = ExpeditionState::new(7, vec!["character.protagonist.captain".into()], BEACH)
        .expect("a fresh campaign constructs");
    state
        .set_control(BEACH, Some(holder.to_owned()), geography)
        .expect("the beach is a real cell");
    state
}

#[test]
fn a_cell_holds_only_as_much_building_as_its_capacity_allows() {
    let geography = Geography::black_beach_vertical_slice();
    let definitions = registry(vec![a_definition(WORKSHOP, 3, 2)]);
    let mut state = a_campaign(&geography, &pirates());

    for index in 0..2 {
        state
            .place_building(
                &format!("building_instance.test.yard_{index}"),
                WORKSHOP,
                BEACH,
                &pirates(),
                &geography,
                &definitions,
            )
            .expect("the first two envelopes fit on the cell");
    }
    assert_eq!(state.envelope_cells_used(BEACH, &definitions), 10);

    assert_eq!(
        state.place_building(
            "building_instance.test.yard_2",
            WORKSHOP,
            BEACH,
            &pirates(),
            &geography,
            &definitions,
        ),
        Err(BuildingError::EnvelopeOverlap {
            cell_id: BEACH.to_owned(),
            occupied: 10,
            requested: 5,
            capacity: CELL_CAPACITY_CELLS,
        }),
        "the third envelope would run outside the cell's capacity"
    );
    assert_eq!(state.buildings.len(), 2, "a rejected placement mutates nothing");

    state
        .ruin_building("building_instance.test.yard_0")
        .expect("a standing building can be brought down");
    assert_eq!(
        state.envelope_cells_used(BEACH, &definitions),
        6,
        "5 whole + 1 of rubble"
    );
    let small = registry(vec![a_definition(WORKSHOP, 3, 2), {
        let mut small = a_definition(SHED, 2, 0);
        small.ruin_state = RuinState::ClearsCompletely;
        small
    }]);
    state
        .place_building(
            "building_instance.test.shed",
            SHED,
            BEACH,
            &pirates(),
            &geography,
            &small,
        )
        .expect("a small envelope fits beside a wreck");
}

#[test]
fn placement_refuses_bad_ids_unknown_cells_unheld_ground_and_wrong_factions() {
    let geography = Geography::black_beach_vertical_slice();
    let definitions = registry(vec![a_definition(WORKSHOP, 2, 1)]);
    let mut state = a_campaign(&geography, &pirates());

    assert!(matches!(
        state.place_building("yard", WORKSHOP, BEACH, &pirates(), &geography, &definitions),
        Err(BuildingError::MalformedId(_))
    ));
    assert!(matches!(
        state.place_building(
            "building.test.yard",
            WORKSHOP,
            BEACH,
            &pirates(),
            &geography,
            &definitions
        ),
        Err(BuildingError::WrongIdPrefix { .. })
    ));
    assert_eq!(
        state.place_building(
            INSTANCE,
            WORKSHOP,
            "world.cell.nowhere",
            &pirates(),
            &geography,
            &definitions
        ),
        Err(BuildingError::UnknownCell {
            cell_id: "world.cell.nowhere".into()
        })
    );
    assert_eq!(
        state.place_building(
            INSTANCE,
            "building.test.missing",
            BEACH,
            &pirates(),
            &geography,
            &definitions
        ),
        Err(BuildingError::UnknownDefinition {
            id: "building.test.missing".into()
        })
    );
    assert_eq!(
        state.place_building(INSTANCE, WORKSHOP, TERRACE, &pirates(), &geography, &definitions),
        Err(BuildingError::CellNotHeld {
            cell_id: TERRACE.into(),
            faction_id: pirates(),
            held_by: None,
        })
    );
    assert_eq!(
        state.place_building(INSTANCE, WORKSHOP, BEACH, &elves(), &geography, &definitions),
        Err(BuildingError::CellNotHeld {
            cell_id: BEACH.into(),
            faction_id: elves(),
            held_by: Some(pirates()),
        }),
        "the elves do not hold the beach, so they cannot build on it"
    );
    assert!(state.buildings.is_empty(), "nothing was mutated");

    state
        .set_control(BEACH, Some(elves()), &geography)
        .expect("control changes hands");
    assert_eq!(
        state.place_building(INSTANCE, WORKSHOP, BEACH, &elves(), &geography, &definitions),
        Err(BuildingError::IncompatibleFaction {
            id: WORKSHOP.into(),
            faction_id: elves(),
        }),
        "the record lists pirates and michael, not elves"
    );
    assert!(state.buildings.is_empty());
}

#[test]
fn a_michael_building_that_produces_a_person_does_not_load() {
    let human = ProductionRule {
        id: "production.test.people".into(),
        output: ProductionOutput::HumanRole {
            role: "role.test.engineer".into(),
        },
        output_key: "role.test.engineer".into(),
        amount: 1,
        interval_hours: 0,
        minimum_tier: FIRST_TIER,
        cost: StrMap::new(),
    };

    let mut michaels = a_definition(WORKSHOP, 2, 1);
    michaels.recruitment_support = set(&["support.test.reach"]);
    michaels.production = vec![human.clone()];
    assert_eq!(
        michaels.validate(),
        Err(BuildingError::MichaelBuildingProducesPeople {
            id: WORKSHOP.into(),
            rule_id: "production.test.people".into(),
        })
    );
    assert!(
        BuildingDefinitions::new().insert(michaels.clone()).is_err(),
        "and the registry will not carry it"
    );

    let mut machines = michaels.clone();
    let mut fuel = StrMap::new();
    fuel.insert("resource.open.fuel".to_owned(), 3);
    machines.production = vec![ProductionRule {
        id: "production.test.automaton".into(),
        output: ProductionOutput::Machine {
            family: MachineFamily::MechanicalDog,
        },
        output_key: "machine.test.mechanical_dog".into(),
        amount: 1,
        interval_hours: 6,
        minimum_tier: FIRST_TIER,
        cost: fuel,
    }];
    assert_eq!(machines.validate(), Ok(()));

    let mut registry = MachineDefinitions::new();
    registry
        .insert(MachineDefinition {
            id: "machine.test.mechanical_dog".into(),
            family: MachineFamily::MechanicalDog,
            ..MachineDefinition::default()
        })
        .expect("the machine record loads");
    let mut michaels_faction = FactionDefinition {
        id: ConceptKey::Michael.faction_id(),
        concept_key: ConceptKey::Michael,
        actor_kit: set(&["machine.test.mechanical_dog"]),
        ..FactionDefinition::default()
    };
    assert!(ActorKit::of(&michaels_faction, &registry).is_ok());
    michaels_faction
        .actor_kit
        .insert("actor.test.engineer".to_owned());
    assert_eq!(
        ActorKit::of(&michaels_faction, &registry),
        Err(ProductionError::MichaelActorKitNamesANonMachine {
            faction_id: ConceptKey::Michael.faction_id(),
            entry_id: "actor.test.engineer".into(),
        })
    );

    let mut others = a_definition(WORKSHOP, 2, 1);
    others.faction_compatibility = vec![ConceptKey::Elves];
    others.production = vec![human.clone()];
    assert_eq!(
        others.validate(),
        Err(BuildingError::HumanRoleWithoutRecruitmentSupport {
            id: WORKSHOP.into(),
            rule_id: "production.test.people".into(),
        })
    );

    others.recruitment_support = set(&["support.test.reach"]);
    assert_eq!(others.validate(), Ok(()));

    others.production = vec![ProductionRule {
        interval_hours: 12,
        ..human
    }];
    assert_eq!(
        others.validate(),
        Err(BuildingError::TimerDrivenHumanRole {
            id: WORKSHOP.into(),
            rule_id: "production.test.people".into(),
        })
    );
}

#[test]
fn a_record_that_leaves_capture_or_ruin_undecided_is_refused_by_name() {
    let mut undecided = a_definition(WORKSHOP, 2, 1);
    undecided.capture_rules = CaptureRules::NeedsDecision;
    match undecided.validate() {
        Err(BuildingError::NeedsDecision { id, field }) => {
            assert_eq!(id, WORKSHOP);
            assert!(field.starts_with("capture_rules"));
            assert!(field.contains("brief section 20"));
        }
        other => panic!("expected a needs-decision refusal, got {other:?}"),
    }

    let mut undecided = a_definition(WORKSHOP, 2, 1);
    undecided.ruin_state = RuinState::NeedsDecision;
    assert!(matches!(
        undecided.validate(),
        Err(BuildingError::NeedsDecision { .. })
    ));

    assert_eq!(CaptureRules::default(), CaptureRules::NeedsDecision);
    assert_eq!(RuinState::default(), RuinState::NeedsDecision);
}

#[test]
fn a_socket_outside_the_envelope_or_in_the_wrong_field_does_not_load() {
    let mut overhang = a_definition(WORKSHOP, 2, 1);
    overhang.actor_sockets[1].offset_cells = 2;
    assert_eq!(
        overhang.validate(),
        Err(BuildingError::SocketOutsideEnvelope {
            socket_id: "socket.muster".into(),
            offset_cells: 2,
            footprint_cells: 2,
        })
    );

    let mut misfiled = a_definition(WORKSHOP, 2, 1);
    misfiled.road_sockets = vec![BuildingSocket {
        id: "socket.sneaky".into(),
        kind: SocketKind::Spawn,
        offset_cells: 0,
    }];
    assert_eq!(
        misfiled.validate(),
        Err(BuildingError::SocketInWrongField {
            socket_id: "socket.sneaky".into(),
            kind: SocketKind::Spawn,
            field: "road_sockets",
        })
    );

    for kind in SocketKind::ALL {
        assert!(matches!(
            kind.field(),
            "entrance_sockets" | "road_sockets" | "actor_sockets" | "delivery_sockets"
        ));
    }

    let mut ungraded = a_definition(WORKSHOP, 2, 1);
    ungraded.tier_states = vec![
        TierState {
            tier: 1,
            ..TierState::default()
        },
        TierState {
            tier: 3,
            ..TierState::default()
        },
    ];
    assert_eq!(
        ungraded.validate(),
        Err(BuildingError::MalformedTiers {
            id: WORKSHOP.into(),
            found: vec![1, 3],
        })
    );
}

#[test]
fn a_building_climbs_one_tier_at_a_time_up_to_the_cap() {
    let geography = Geography::black_beach_vertical_slice();
    let definitions = registry(vec![a_definition(WORKSHOP, 2, 1)]);
    let mut state = a_campaign(&geography, &pirates());
    state
        .place_building(INSTANCE, WORKSHOP, BEACH, &pirates(), &geography, &definitions)
        .expect("the first building goes up");

    let building = state.buildings.get(INSTANCE).unwrap();
    assert_eq!(building.tier, FIRST_TIER);
    assert_eq!(building.state, BuildingState::UnderConstruction);
    assert_eq!(building.construction_hours_remaining, 4);
    assert_eq!(building.hp, 100);

    assert!(matches!(
        state.upgrade_building(INSTANCE, &StrSet::new(), &definitions),
        Err(BuildingError::WrongState { .. })
    ));

    assert!(
        state.advance_construction(3).is_empty(),
        "three of four hours finishes nothing"
    );
    assert_eq!(
        state.advance_construction(1),
        vec![INSTANCE.to_owned()],
        "the fourth hour finishes it"
    );
    assert_eq!(
        state.buildings.get(INSTANCE).unwrap().state,
        BuildingState::Operational
    );

    assert_eq!(
        state.upgrade_building(INSTANCE, &StrSet::new(), &definitions),
        Err(BuildingError::RequirementsNotMet {
            id: INSTANCE.into(),
            missing: set(&["requirement.test.tier_2"]),
        })
    );
    assert_eq!(state.buildings.get(INSTANCE).unwrap().tier, FIRST_TIER);

    let mut met = set(&["requirement.test.tier_2"]);
    assert_eq!(
        state.upgrade_building(INSTANCE, &met, &definitions),
        Ok(2),
        "requirements met, the building starts building its second tier"
    );
    let building = state.buildings.get(INSTANCE).unwrap();
    assert_eq!(building.state, BuildingState::UnderConstruction);
    assert_eq!(building.construction_hours_remaining, 8);
    assert_eq!(building.hp, 200);

    state.advance_construction(8);
    met.insert("requirement.test.tier_3".to_owned());
    assert_eq!(state.upgrade_building(INSTANCE, &met, &definitions), Ok(3));
    state.advance_construction(12);
    assert_eq!(state.buildings.get(INSTANCE).unwrap().tier, TIER_CAP);

    assert_eq!(
        state.upgrade_building(INSTANCE, &met, &definitions),
        Err(BuildingError::AtTopTier {
            id: INSTANCE.into(),
            tier: TIER_CAP,
        })
    );

    let mut short = a_definition(SHED, 2, 0);
    short.tier_states = tiers(1);
    let short_registry = registry(vec![short]);
    state
        .place_building(
            "building_instance.test.shed",
            SHED,
            BEACH,
            &pirates(),
            &geography,
            &short_registry,
        )
        .expect("a one-tier building goes up");
    state.advance_construction(4);
    assert_eq!(
        state.upgrade_building("building_instance.test.shed", &met, &short_registry),
        Err(BuildingError::AtTopTier {
            id: "building_instance.test.shed".into(),
            tier: FIRST_TIER,
        })
    );
}

#[test]
fn a_capturable_building_changes_hands_and_a_destroy_only_one_comes_down() {
    let geography = Geography::black_beach_vertical_slice();
    let mut destroy_only = a_definition(SHED, 2, 0);
    destroy_only.capture_rules = CaptureRules::DestroyOnly;
    let definitions = registry(vec![a_definition(WORKSHOP, 2, 1), destroy_only]);
    let mut state = a_campaign(&geography, &pirates());
    state
        .place_building(INSTANCE, WORKSHOP, BEACH, &pirates(), &geography, &definitions)
        .expect("the workshop goes up");
    state
        .place_building(
            "building_instance.test.shed",
            SHED,
            BEACH,
            &pirates(),
            &geography,
            &definitions,
        )
        .expect("the shed goes up");
    state.advance_construction(4);

    assert_eq!(
        state.damage_building(INSTANCE, 40, &definitions),
        Ok(BuildingState::Damaged)
    );
    assert_eq!(state.buildings.get(INSTANCE).unwrap().hp, 60);
    assert!(matches!(
        state.capture_building(INSTANCE, &elves(), &definitions),
        Err(BuildingError::WrongState { .. })
    ));

    assert_eq!(
        state.damage_building(INSTANCE, 999, &definitions),
        Ok(BuildingState::Damaged),
        "a capturable building at zero is a shell, not yet a ruin"
    );
    assert_eq!(state.buildings.get(INSTANCE).unwrap().hp, 0);
    assert_eq!(
        state.capture_building(INSTANCE, &pirates(), &definitions),
        Err(BuildingError::AlreadyHeld {
            id: INSTANCE.into(),
            faction_id: pirates(),
        })
    );
    state
        .capture_building(INSTANCE, &elves(), &definitions)
        .expect("the attacker walks in");
    let taken = state.buildings.get(INSTANCE).unwrap();
    assert_eq!(taken.state, BuildingState::Captured);
    assert_eq!(taken.faction_id, elves());
    assert_eq!(taken.hp, CAPTURE_HP_RESTORED);
    assert!(taken.is_working(), "a captured building works for whoever took it");

    assert_eq!(
        state.damage_building("building_instance.test.shed", 999, &definitions),
        Ok(BuildingState::Ruined)
    );
    assert!(matches!(
        state.capture_building("building_instance.test.shed", &elves(), &definitions),
        Err(BuildingError::WrongState { .. })
    ));
    assert!(matches!(
        state.damage_building("building_instance.test.shed", 1, &definitions),
        Err(BuildingError::WrongState { .. })
    ));
    assert!(matches!(
        state.ruin_building("building_instance.test.shed"),
        Err(BuildingError::WrongState { .. })
    ));
    assert_eq!(
        state.damage_building("building_instance.test.missing", 1, &definitions),
        Err(BuildingError::UnknownBuilding {
            id: "building_instance.test.missing".into()
        })
    );
}

#[test]
fn a_cell_offers_the_actor_sockets_of_the_buildings_working_on_it() {
    let geography = Geography::black_beach_vertical_slice();
    let definitions = registry(vec![a_definition(WORKSHOP, 2, 1)]);
    let mut state = a_campaign(&geography, &pirates());
    state
        .place_building(INSTANCE, WORKSHOP, BEACH, &pirates(), &geography, &definitions)
        .expect("the workshop goes up");

    assert!(
        state.actor_sockets_at(BEACH, &definitions).is_empty(),
        "a half-built building has no working positions"
    );
    state.advance_construction(4);

    let sockets = state.actor_sockets_at(BEACH, &definitions);
    assert_eq!(sockets.len(), 2);
    assert!(sockets.iter().all(|(id, _)| id == INSTANCE));
    assert!(sockets
        .iter()
        .any(|(_, socket)| socket.kind == SocketKind::Spawn));
    assert!(state.actor_sockets_at(TERRACE, &definitions).is_empty());
    assert_eq!(state.buildings_at(BEACH).len(), 1);

    state.ruin_building(INSTANCE).expect("it comes down");
    assert!(
        state.actor_sockets_at(BEACH, &definitions).is_empty(),
        "a ruin offers nothing"
    );
}

#[test]
fn a_registry_refuses_a_second_record_for_one_id_and_reads_back_what_it_holds() {
    let mut definitions = registry(vec![a_definition(WORKSHOP, 2, 1)]);
    assert_eq!(
        definitions.insert(a_definition(WORKSHOP, 3, 1)),
        Err(BuildingError::Duplicate { id: WORKSHOP.into() })
    );
    assert_eq!(definitions.len(), 1);
    assert_eq!(definitions.get(WORKSHOP).unwrap().footprint_cells, 2);
    assert_eq!(
        definitions.require("building.test.missing").err(),
        Some(BuildingError::UnknownDefinition {
            id: "building.test.missing".into()
        })
    );
    assert_eq!(a_definition(WORKSHOP, 3, 2).envelope_cells(), 5);
    assert_eq!(a_definition(WORKSHOP, 3, 2).ruined_envelope_cells(), 1);
    assert_eq!(a_definition(WORKSHOP, 3, 2).top_tier(), 3);
    assert!(a_definition(WORKSHOP, 3, 2).compatible_with(ConceptKey::Michael));
    assert!(!a_definition(WORKSHOP, 3, 2).compatible_with(ConceptKey::Elves));
}

#[test]
fn damage_to_a_building_under_construction_ends_its_construction_hours() {
    let geography = Geography::black_beach_vertical_slice();
    let definitions = registry(vec![a_definition(WORKSHOP, 2, 1)]);
    let mut state = a_campaign(&geography, &pirates());
    state
        .place_building(INSTANCE, WORKSHOP, BEACH, &pirates(), &geography, &definitions)
        .expect("the workshop goes up");
    assert_eq!(state.buildings.get(INSTANCE).unwrap().construction_hours_remaining, 4);
    assert_eq!(
        state.damage_building(INSTANCE, 40, &definitions),
        Ok(BuildingState::Damaged)
    );
    let building = state.buildings.get(INSTANCE).unwrap();
    assert_eq!(building.hp, 60);
    assert_eq!(building.construction_hours_remaining, 0, "only UnderConstruction carries hours");
}
