use island_strategy::building::{
    BuildingDefinition, BuildingDefinitions, BuildingError, BuildingState, CaptureRules,
    ProductionOutput, ProductionRule, RuinState, TierState, FIRST_TIER,
};
use island_strategy::building::SocketKind;
use island_strategy::expedition::{ExpeditionError, ExpeditionState};
use island_strategy::faction::{ConceptKey, FactionDefinition, FactionState};
use island_strategy::geography::Geography;
use island_strategy::keyed::{StrMap, StrSet};
use island_strategy::production::{
    advance_production, ActorKit, ActorKitEntry, ExposurePolicy, MachineDefinition,
    MachineDefinitions, MachineFamily, ProductionError, ProductionSkipReason, MACHINE_ID_PREFIX,
};
use island_strategy::tick::StrategicEvent;

const DOG: &str = "machine.test.mechanical_dog";
const YARD: &str = "building.test.machine_yard";
const YARD_INSTANCE: &str = "building_instance.test.yard";
const DOG_INSTANCE: &str = "machine_instance.test.first_dog";
const BEACH: &str = "world.cell.black_beach";
const FUEL: &str = "resource.open.fuel";
const DRAW: u64 = 0x0123_4567_89ab_cdef;

fn michael() -> String {
    ConceptKey::Michael.faction_id()
}

fn set(items: &[&str]) -> StrSet {
    let mut s = StrSet::new();
    for item in items {
        s.insert((*item).to_owned());
    }
    s
}

fn costs(items: &[(&str, u32)]) -> StrMap<u32> {
    let mut m = StrMap::new();
    for (key, amount) in items {
        m.insert((*key).to_owned(), *amount);
    }
    m
}

fn a_dog_record() -> MachineDefinition {
    MachineDefinition {
        id: DOG.into(),
        family: MachineFamily::MechanicalDog,
        operational_footprint_cells: 1,
        navigation_width_cells: 1,
        turning_clearance_cells: 1,
        maximum_slope: 200,
        valid_route_types: set(&["safe_road", "jungle_edge"]),
        bridge_requirements: StrSet::new(),
        crew_or_handler_requirement: 1,
        fuel_requirement: 4,
        water_requirement: 2,
        repair_sockets: set(&["socket.test.boiler"]),
        local_and_offscreen_representations: "needs decision: the art lane".into(),
        wreck_footprint_cells: 1,
        salvage_value: costs(&[("resource.open.scrap", 1)]),
    }
}

fn a_machine_registry() -> MachineDefinitions {
    let mut machines = MachineDefinitions::new();
    machines.insert(a_dog_record()).expect("the record loads");
    machines
}

fn a_yard_record() -> BuildingDefinition {
    BuildingDefinition {
        id: YARD.into(),
        faction_compatibility: vec![ConceptKey::Michael],
        function: "a machine yard".into(),
        footprint_cells: 2,
        clearance_cells: 1,
        tier_states: vec![TierState {
            tier: FIRST_TIER,
            construction_hours: 0,
            construction_requirements: StrSet::new(),
            hit_points: 100,
            notes: String::new(),
        }],
        production: vec![ProductionRule {
            id: "production.test.dog".into(),
            output: ProductionOutput::Machine {
                family: MachineFamily::MechanicalDog,
            },
            output_key: DOG.into(),
            amount: 1,
            interval_hours: 0,
            minimum_tier: FIRST_TIER,
            cost: costs(&[(FUEL, 3)]),
        }],
        capture_rules: CaptureRules::Capturable,
        ruin_state: RuinState::ClearsCompletely,
        ..BuildingDefinition::default()
    }
}

fn registry(definition: BuildingDefinition) -> BuildingDefinitions {
    let mut definitions = BuildingDefinitions::new();
    definitions.insert(definition).expect("the record loads");
    definitions
}

fn a_campaign(fuel: u32, record: BuildingDefinition) -> (ExpeditionState, BuildingDefinitions) {
    let geography = Geography::black_beach_vertical_slice();
    let mut state = ExpeditionState::new(7, vec!["character.protagonist.captain".into()], BEACH)
        .expect("a fresh campaign constructs");

    let mut faction = FactionState::new();
    faction.resources.insert(FUEL.to_owned(), fuel);
    state.factions.insert(michael(), faction);
    state
        .set_control(BEACH, Some(michael()), &geography)
        .expect("the beach is a real cell");

    let definitions = registry(record);
    state
        .place_building(YARD_INSTANCE, YARD, BEACH, &michael(), &geography, &definitions)
        .expect("the yard is placed");
    assert_eq!(
        state.buildings.get(YARD_INSTANCE).unwrap().state,
        BuildingState::Operational,
        "a zero-hour tier is finished the moment it is placed"
    );
    (state, definitions)
}

fn a_yard_record_on_a_timer(interval_hours: u32, output: ProductionOutput) -> BuildingDefinition {
    let mut record = a_yard_record();
    let rule = &mut record.production[0];
    rule.interval_hours = interval_hours;
    rule.output = output;
    record
}

fn an_hour(
    state: &mut ExpeditionState,
    definitions: &BuildingDefinitions,
    machines: &MachineDefinitions,
) -> Vec<StrategicEvent> {
    advance_production(state, &michael(), definitions, machines, DRAW)
}

fn countdown(state: &ExpeditionState, rule_index: usize) -> Option<u32> {
    state
        .buildings
        .get(YARD_INSTANCE)
        .unwrap()
        .production_countdown
        .iter()
        .find(|(index, _)| *index == rule_index)
        .map(|(_, hours)| *hours)
}

fn fuel_of(state: &ExpeditionState, faction_id: &str) -> u32 {
    *state
        .factions
        .get(faction_id)
        .unwrap()
        .resources
        .get(FUEL)
        .unwrap()
}

#[test]
fn a_timer_rule_produces_on_its_interval_pays_for_it_and_then_starts_over() {
    let (mut state, definitions) = a_campaign(
        3,
        a_yard_record_on_a_timer(
            3,
            ProductionOutput::Machine {
                family: MachineFamily::MechanicalDog,
            },
        ),
    );
    let machines = a_machine_registry();

    assert!(an_hour(&mut state, &definitions, &machines).is_empty());
    assert_eq!(countdown(&state, 0), Some(2));
    assert!(an_hour(&mut state, &definitions, &machines).is_empty());
    assert_eq!(countdown(&state, 0), Some(1));

    let events = an_hour(&mut state, &definitions, &machines);
    assert_eq!(
        events,
        vec![StrategicEvent::MachineProduced {
            faction_id: michael(),
            family: MachineFamily::MechanicalDog,
            building_instance_id: YARD_INSTANCE.into(),
            day: state.campaign_day,
        }],
        "the third hour is the yield"
    );
    assert_eq!(state.machines_of(&michael()).len(), 1);
    assert_eq!(fuel_of(&state, &michael()), 0);
    assert_eq!(countdown(&state, 0), Some(3));

    assert!(an_hour(&mut state, &definitions, &machines).is_empty());
    assert!(an_hour(&mut state, &definitions, &machines).is_empty());
    let events = an_hour(&mut state, &definitions, &machines);
    assert_eq!(
        events,
        vec![StrategicEvent::ProductionSkipped {
            faction_id: michael(),
            building_instance_id: YARD_INSTANCE.into(),
            rule_id: "production.test.dog".into(),
            reason: ProductionSkipReason::InsufficientResource {
                key: FUEL.into(),
                held: 0,
                needed: 3,
            },
            day: state.campaign_day,
        }],
        "a yard that cannot pay skips, by name"
    );
    assert_eq!(state.machines_of(&michael()).len(), 1);
    assert_eq!(fuel_of(&state, &michael()), 0);
    assert_eq!(countdown(&state, 0), Some(3));
}

#[test]
fn a_capacity_rule_is_journalled_and_puts_nothing_into_the_stockpile() {
    let (mut state, definitions) =
        a_campaign(3, a_yard_record_on_a_timer(2, ProductionOutput::Capacity));
    let machines = MachineDefinitions::new();

    assert!(an_hour(&mut state, &definitions, &machines).is_empty());
    let events = an_hour(&mut state, &definitions, &machines);
    assert_eq!(
        events,
        vec![StrategicEvent::ProductionYielded {
            faction_id: michael(),
            building_instance_id: YARD_INSTANCE.into(),
            rule_id: "production.test.dog".into(),
            output_key: DOG.into(),
            amount: 1,
            day: state.campaign_day,
        }],
        "a capacity yield is reported with the rule's authored key and amount"
    );
    assert_eq!(fuel_of(&state, &michael()), 0);
    assert_eq!(
        state.factions.get(&michael()).unwrap().resources.len(),
        1,
        "and the yield itself went nowhere: no key was invented to hold it"
    );
    assert!(state.machines.is_empty(), "a capacity rule does not make a machine");
}

#[test]
fn only_an_operational_building_counts_down() {
    for state_after_placing in [
        BuildingState::UnderConstruction,
        BuildingState::Damaged,
        BuildingState::Ruined,
        BuildingState::Captured,
    ] {
        let (mut state, definitions) = a_campaign(
            9,
            a_yard_record_on_a_timer(
                1,
                ProductionOutput::Machine {
                    family: MachineFamily::MechanicalDog,
                },
            ),
        );
        let machines = a_machine_registry();
        state
            .buildings
            .get_mut(YARD_INSTANCE)
            .expect("the yard was placed")
            .state = state_after_placing;

        assert!(
            an_hour(&mut state, &definitions, &machines).is_empty(),
            "a {state_after_placing:?} yard produced something"
        );
        assert!(
            state
                .buildings
                .get(YARD_INSTANCE)
                .unwrap()
                .production_countdown
                .is_empty(),
            "a {state_after_placing:?} yard should not even have started its timer"
        );
        assert_eq!(fuel_of(&state, &michael()), 9);
    }
}

#[test]
fn a_rule_that_makes_a_person_never_runs_on_a_timer() {
    let a_role = || ProductionOutput::HumanRole {
        role: "role.test.mechanic".into(),
    };

    let mut michaels = a_yard_record_on_a_timer(0, a_role());
    michaels.recruitment_support = set(&["recruitment.test.support"]);
    assert!(
        matches!(
            michaels.validate(),
            Err(BuildingError::MichaelBuildingProducesPeople { .. })
        ),
        "lock one: Michael's buildings make machines, capacity and services"
    );

    let mut pirates = a_yard_record_on_a_timer(4, a_role());
    pirates.faction_compatibility = vec![ConceptKey::Pirates];
    pirates.recruitment_support = set(&["recruitment.test.support"]);
    assert!(
        matches!(
            pirates.validate(),
            Err(BuildingError::TimerDrivenHumanRole { .. })
        ),
        "lock two: a manufacturing timer is refused whoever owns it"
    );

    pirates.production[0].interval_hours = 0;
    pirates.production.push(ProductionRule {
        id: "production.test.dog".into(),
        output: ProductionOutput::Machine {
            family: MachineFamily::MechanicalDog,
        },
        output_key: DOG.into(),
        amount: 1,
        interval_hours: 1,
        minimum_tier: FIRST_TIER,
        cost: StrMap::new(),
    });
    let definitions = registry(pirates);
    let geography = Geography::black_beach_vertical_slice();
    let pirate_id = ConceptKey::Pirates.faction_id();
    let mut state = ExpeditionState::new(7, vec!["character.protagonist.captain".into()], BEACH)
        .expect("a fresh campaign constructs");
    state.factions.insert(pirate_id.clone(), FactionState::new());
    state
        .set_control(BEACH, Some(pirate_id.clone()), &geography)
        .expect("the beach is a real cell");
    state
        .place_building(YARD_INSTANCE, YARD, BEACH, &pirate_id, &geography, &definitions)
        .expect("the yard is placed");

    let machines = a_machine_registry();
    for _ in 0..5 {
        advance_production(&mut state, &pirate_id, &definitions, &machines, DRAW);
    }
    assert_eq!(
        countdown(&state, 0),
        None,
        "the human-role rule was given a timer"
    );
    assert!(
        countdown(&state, 1).is_some(),
        "the machine rule beside it does count down"
    );
    assert_eq!(
        state.machines_of(&pirate_id).len(),
        5,
        "five hours of a one-hour machine rule are five machines, each with its own ID"
    );
}

#[test]
fn a_tier_one_michael_building_produces_a_mechanical_dog_and_the_fuel_is_gone() {
    let (mut state, definitions) = a_campaign(10, a_yard_record());
    let machines = a_machine_registry();

    let (dog, event) = state
        .produce_machine(DOG_INSTANCE, YARD_INSTANCE, 0, &definitions, &machines)
        .expect("an operational tier-1 yard with fuel in the bank produces");

    assert_eq!(dog.def_id, DOG, "the instance references the record by ID");
    assert_eq!(dog.faction_id, michael());
    assert_eq!(dog.cell_id, BEACH);
    assert_eq!(dog.built_by_building_instance_id, YARD_INSTANCE);
    assert_eq!(
        (dog.fuel_remaining, dog.water_remaining, dog.damage),
        (4, 2, 0),
        "a new machine is full and whole"
    );
    assert_eq!(*state.machines.get(DOG_INSTANCE).unwrap(), dog);
    assert_eq!(
        state.buildings.get(YARD_INSTANCE).unwrap().machines_produced,
        1
    );
    assert_eq!(
        fuel_of(&state, &michael()),
        7,
        "three of ten fuel is spent; the rule named the key, and no enum did"
    );
    assert_eq!(
        event,
        StrategicEvent::MachineProduced {
            faction_id: michael(),
            family: MachineFamily::MechanicalDog,
            building_instance_id: YARD_INSTANCE.into(),
            day: state.campaign_day,
        }
    );
}

#[test]
fn a_refused_production_leaves_the_stockpile_and_the_board_alone() {
    let machines = a_machine_registry();

    let (mut state, definitions) = a_campaign(2, a_yard_record());
    let before = state.clone();
    assert_eq!(
        state.produce_machine(DOG_INSTANCE, YARD_INSTANCE, 0, &definitions, &machines),
        Err(ProductionError::InsufficientResource {
            faction_id: michael(),
            key: FUEL.into(),
            held: 2,
            needed: 3,
        })
    );
    assert_eq!(state, before, "a refusal changed nothing at all");

    let (mut state, definitions) = a_campaign(10, a_yard_record());
    state
        .buildings
        .get_mut(YARD_INSTANCE)
        .expect("the yard stands")
        .state = BuildingState::Damaged;
    let before = state.clone();
    assert_eq!(
        state.produce_machine(DOG_INSTANCE, YARD_INSTANCE, 0, &definitions, &machines),
        Err(ProductionError::NotOperational {
            building_instance_id: YARD_INSTANCE.into(),
            state: BuildingState::Damaged,
        })
    );
    assert_eq!(state, before);

    let mut two_tier = a_yard_record();
    two_tier.tier_states.push(TierState {
        tier: FIRST_TIER + 1,
        construction_hours: 4,
        construction_requirements: StrSet::new(),
        hit_points: 200,
        notes: String::new(),
    });
    two_tier.production[0].minimum_tier = FIRST_TIER + 1;
    let (mut state, definitions) = a_campaign(10, two_tier);
    let before = state.clone();
    assert_eq!(
        state.produce_machine(DOG_INSTANCE, YARD_INSTANCE, 0, &definitions, &machines),
        Err(ProductionError::BelowMinimumTier {
            building_instance_id: YARD_INSTANCE.into(),
            tier: FIRST_TIER,
            minimum_tier: FIRST_TIER + 1,
        })
    );
    assert_eq!(state, before);

    let mut services = a_yard_record();
    services.production[0].output = ProductionOutput::Service;
    let (mut state, definitions) = a_campaign(10, services);
    let before = state.clone();
    assert_eq!(
        state.produce_machine(DOG_INSTANCE, YARD_INSTANCE, 0, &definitions, &machines),
        Err(ProductionError::NotAMachineRule {
            building_instance_id: YARD_INSTANCE.into(),
            rule_id: "production.test.dog".into(),
        })
    );
    assert_eq!(state, before);

    let mut mismatched = a_yard_record();
    mismatched.production[0].output = ProductionOutput::Machine {
        family: MachineFamily::Airship,
    };
    let (mut state, definitions) = a_campaign(10, mismatched);
    let before = state.clone();
    assert_eq!(
        state.produce_machine(DOG_INSTANCE, YARD_INSTANCE, 0, &definitions, &machines),
        Err(ProductionError::FamilyMismatch {
            rule_id: "production.test.dog".into(),
            def_id: DOG.into(),
            rule_family: MachineFamily::Airship,
            definition_family: MachineFamily::MechanicalDog,
        })
    );
    assert_eq!(state, before);
}

#[test]
fn the_families_are_the_eight_the_brief_names() {
    let keys: Vec<&str> = MachineFamily::ALL
        .into_iter()
        .map(MachineFamily::as_key)
        .collect();
    assert_eq!(
        keys,
        [
            "mechanical_dog",
            "mechanical_cavalry",
            "mechanical_bear",
            "mechanical_elephant",
            "walker",
            "steam_wagon",
            "rocket",
            "airship",
        ]
    );
    for family in MachineFamily::ALL {
        assert_eq!(MachineFamily::from_key(family.as_key()), Some(family));
    }
    assert_eq!(MachineFamily::from_key("mechanical_horse"), None);
}

#[test]
fn michaels_kit_is_machines_and_records_that_machines_take_the_exposure() {
    let machines = a_machine_registry();

    let mut definition = FactionDefinition {
        id: michael(),
        concept_key: ConceptKey::Michael,
        actor_kit: set(&[DOG]),
        ..FactionDefinition::default()
    };
    let kit = ActorKit::of(&definition, &machines).expect("a kit of machines loads");
    assert_eq!(
        kit.entries,
        vec![ActorKitEntry::Machine {
            id: DOG.into(),
            family: MachineFamily::MechanicalDog,
        }]
    );
    assert_eq!(kit.entries[0].id(), DOG);
    assert_eq!(kit.families(), vec![MachineFamily::MechanicalDog]);
    assert_eq!(kit.exposure_policy, ExposurePolicy::MachinesFirst);

    definition.actor_kit = set(&[DOG, "actor.test.engineer"]);
    assert_eq!(
        ActorKit::of(&definition, &machines),
        Err(ProductionError::MichaelActorKitNamesANonMachine {
            faction_id: michael(),
            entry_id: "actor.test.engineer".into(),
        }),
        "his faction fields machines; a person in his kit does not load"
    );

    let elves = FactionDefinition {
        id: ConceptKey::Elves.faction_id(),
        concept_key: ConceptKey::Elves,
        actor_kit: set(&["actor.test.engineer"]),
        ..FactionDefinition::default()
    };
    let kit = ActorKit::of(&elves, &machines).expect("an ordinary kit loads");
    assert_eq!(
        kit.entries,
        vec![ActorKitEntry::NonMachine {
            id: "actor.test.engineer".into(),
        }]
    );
    assert_eq!(kit.exposure_policy, ExposurePolicy::Unstated);
}

#[test]
fn the_machine_registry_refuses_a_record_it_cannot_trust() {
    let mut machines = MachineDefinitions::new();
    let mut wrong = a_dog_record();
    wrong.id = "automaton.test.dog".into();
    assert_eq!(
        machines.insert(wrong),
        Err(ProductionError::WrongIdPrefix {
            found: "automaton.test.dog".into(),
            expected: MACHINE_ID_PREFIX,
        })
    );
    assert!(machines.is_empty());

    machines.insert(a_dog_record()).expect("the record loads");
    assert_eq!(
        machines.insert(a_dog_record()),
        Err(ProductionError::DuplicateDefinition { id: DOG.into() })
    );
    assert_eq!(machines.len(), 1);
    assert_eq!(machines.ids(), vec![DOG]);
}

#[test]
fn a_refusal_the_hour_meets_is_journalled_as_described_text() {
    let mut record = a_yard_record_on_a_timer(
        1,
        ProductionOutput::Machine {
            family: MachineFamily::Airship,
        },
    );
    record.production[0].cost = StrMap::new();
    let (mut state, definitions) = a_campaign(5, record);
    let machines = a_machine_registry();
    let events = an_hour(&mut state, &definitions, &machines);
    assert_eq!(events.len(), 1);
    let StrategicEvent::ProductionSkipped { reason, .. } = &events[0] else {
        panic!("expected a skip, got {events:?}");
    };
    let ProductionSkipReason::Refused { detail } = reason else {
        panic!("expected a described refusal, got {reason:?}");
    };
    assert!(detail.contains("FamilyMismatch"), "{detail}");
    assert!(detail.contains("production.test.dog"), "{detail}");
}

#[test]
fn a_rule_naming_an_unknown_machine_record_is_skipped_by_name() {
    let (mut state, definitions) = a_campaign(
        5,
        a_yard_record_on_a_timer(
            1,
            ProductionOutput::Machine {
                family: MachineFamily::MechanicalDog,
            },
        ),
    );
    let events = an_hour(&mut state, &definitions, &MachineDefinitions::new());
    assert_eq!(
        events,
        vec![StrategicEvent::ProductionSkipped {
            faction_id: michael(),
            building_instance_id: YARD_INSTANCE.into(),
            rule_id: "production.test.dog".into(),
            reason: ProductionSkipReason::UnknownMachineRecord { def_id: DOG.into() },
            day: state.campaign_day,
        }]
    );
    assert_eq!(fuel_of(&state, &michael()), 5);
}

#[test]
fn a_building_refusal_passes_through_production_unchanged() {
    let refusal = BuildingError::UnknownBuilding { id: YARD_INSTANCE.into() };
    assert_eq!(
        ProductionError::from(refusal.clone()),
        ProductionError::Building(refusal)
    );
}

#[test]
fn a_refusal_without_its_own_reason_is_carried_in_its_debug_form() {
    let refusal = ProductionError::NoSuchRule { building_instance_id: YARD_INSTANCE.into(), rule_index: 4 };
    assert_eq!(
        ProductionSkipReason::of(&refusal),
        ProductionSkipReason::Refused {
            detail: "NoSuchRule { building_instance_id: \"building_instance.test.yard\", rule_index: 4 }".to_owned()
        }
    );
    let short = ProductionError::InsufficientResource {
        faction_id: "faction.test".into(),
        key: FUEL.into(),
        held: 1,
        needed: 3,
    };
    assert_eq!(
        ProductionSkipReason::of(&short),
        ProductionSkipReason::InsufficientResource { key: FUEL.into(), held: 1, needed: 3 }
    );
    assert_eq!(
        ProductionSkipReason::of(&ProductionError::UnknownDefinition { id: DOG.into() }),
        ProductionSkipReason::UnknownMachineRecord { def_id: DOG.into() }
    );
}

#[test]
fn a_refusal_is_carried_exactly_as_debug_writes_it() {
    let mut missing = StrSet::new();
    missing.insert("requirement.test.b".to_owned());
    missing.insert("requirement.test.a".to_owned());
    let refusals = vec![
        ProductionError::MalformedId(ExpeditionError::InvalidStableId {
            field: "machine.instance_id",
            value: "Bad \"id\"\\\n\t\r\0\u{1b}\u{7f}é".to_owned(),
        }),
        ProductionError::MalformedId(ExpeditionError::EmptyParty),
        ProductionError::WrongIdPrefix { found: "automaton.x".into(), expected: "machine." },
        ProductionError::NoSuchRule { building_instance_id: YARD_INSTANCE.into(), rule_index: 12 },
        ProductionError::NotOperational { building_instance_id: YARD_INSTANCE.into(), state: BuildingState::UnderConstruction },
        ProductionError::FamilyMismatch {
            rule_id: "production.test.dog".into(),
            def_id: DOG.into(),
            rule_family: MachineFamily::MechanicalDog,
            definition_family: MachineFamily::Airship,
        },
        ProductionError::Building(BuildingError::CellNotHeld {
            cell_id: BEACH.into(),
            faction_id: "faction.pirates".into(),
            held_by: Some("faction.elves".into()),
        }),
        ProductionError::Building(BuildingError::CellNotHeld {
            cell_id: BEACH.into(),
            faction_id: "faction.pirates".into(),
            held_by: None,
        }),
        ProductionError::Building(BuildingError::MalformedTiers { id: YARD.into(), found: vec![1, 3, 2] }),
        ProductionError::Building(BuildingError::MalformedTiers { id: YARD.into(), found: vec![] }),
        ProductionError::Building(BuildingError::RequirementsNotMet { id: YARD.into(), missing }),
        ProductionError::Building(BuildingError::RequirementsNotMet { id: YARD.into(), missing: StrSet::new() }),
        ProductionError::Building(BuildingError::SocketInWrongField {
            socket_id: "socket.test.gate".into(),
            kind: SocketKind::Delivery,
            field: "road_sockets",
        }),
        ProductionError::Building(BuildingError::WrongState {
            id: YARD_INSTANCE.into(),
            state: BuildingState::Ruined,
            wanted: "anything but Ruined",
        }),
    ];
    for refusal in refusals {
        assert_eq!(
            ProductionSkipReason::of(&refusal),
            ProductionSkipReason::Refused { detail: format!("{refusal:?}") }
        );
    }
}
