use island_strategy::action::{
    act_on_goals, ActionSkipReason, FORCE_COMPOSITION_ACTOR_KEY, FORCE_COMPOSITION_HEADS,
    GATHERED_RESOURCE_KEY, GATHER_PER_HELD_CELL_PER_HOUR,
};
use island_strategy::building::{
    BuildingDefinition, BuildingDefinitions, BuildingState, CaptureRules, RuinState, TierState,
};
use island_strategy::expedition::ExpeditionState;
use island_strategy::faction::{ConceptKey, FactionDefinitions, FactionState};
use island_strategy::geography::Geography;
use island_strategy::keyed::StrMap;
use island_strategy::production::MachineDefinitions;
use island_strategy::tick::{hour_draws, StrategicEvent};
use island_strategy::utility::Goal;

const BEACH: &str = "world.cell.black_beach";
const ESTATE: &str = "world.cell.damaged_estate";

fn pirates() -> String {
    ConceptKey::Pirates.faction_id()
}

fn a_campaign() -> ExpeditionState {
    let mut state = ExpeditionState::new(7, vec!["character.protagonist.captain".into()], BEACH)
        .expect("a fresh campaign constructs");
    for concept in ConceptKey::ALL {
        state.factions.insert(concept.faction_id(), FactionState::new());
    }
    state
}

fn priced(amount: Option<u32>) -> StrMap<u32> {
    let mut cost = StrMap::new();
    if let Some(amount) = amount {
        cost.insert("resource.open.gathered".to_owned(), amount);
    }
    cost
}

fn a_definition(id: &str, concept: ConceptKey, cost: StrMap<u32>) -> BuildingDefinition {
    BuildingDefinition {
        id: id.to_owned(),
        faction_compatibility: vec![concept],
        function: "a test record".into(),
        footprint_cells: 4,
        clearance_cells: 2,
        construction_cost: cost,
        tier_states: vec![TierState {
            tier: 1,
            construction_hours: 4,
            hit_points: 10,
            ..TierState::default()
        }],
        capture_rules: CaptureRules::DestroyOnly,
        ruin_state: RuinState::ClearsCompletely,
        ..BuildingDefinition::default()
    }
}

fn a_registry(cost: StrMap<u32>) -> BuildingDefinitions {
    let mut definitions = BuildingDefinitions::new();
    definitions
        .insert(a_definition("building.test.pirate_post", ConceptKey::Pirates, cost))
        .expect("the fixture record loads");
    definitions
}

fn act(
    state: &mut ExpeditionState,
    faction_id: &str,
    geography: &Geography,
    buildings: &BuildingDefinitions,
) -> Vec<StrategicEvent> {
    let draws = hour_draws(
        state.rng_seed,
        state.campaign_day,
        state.strategic_clock.hour_of_day,
        faction_id,
    );
    act_on_goals(state, faction_id, geography, buildings, &draws)
}

fn with_goals(state: &mut ExpeditionState, faction_id: &str, goals: Vec<Goal>) {
    state
        .factions
        .get_mut(faction_id)
        .expect("the campaign carries this faction")
        .current_goals = goals;
}

fn held(state: &ExpeditionState, faction_id: &str, key: &str) -> u32 {
    *state
        .factions
        .get(faction_id)
        .unwrap()
        .resources
        .get(key)
        .unwrap()
}

#[test]
fn michaels_faction_takes_no_autonomous_action() {
    let geography = Geography::black_beach_vertical_slice();
    let buildings = a_registry(priced(None));
    let michael = ConceptKey::Michael.faction_id();
    let mut state = a_campaign();
    state
        .set_control(BEACH, Some(michael.clone()), &geography)
        .expect("the beach is a real cell");
    with_goals(&mut state, &michael, Goal::ALL.to_vec());

    let events = act(&mut state, &michael, &geography, &buildings);
    assert!(
        events.is_empty(),
        "the player directs this faction; the simulation acted for it: {events:?}"
    );
    assert!(state.buildings.is_empty());
    assert!(state.forces.is_empty());
    assert!(state.factions.get(&michael).unwrap().resources.is_empty());
}

#[test]
fn develop_places_a_compatible_building_and_pays_for_it() {
    let geography = Geography::black_beach_vertical_slice();
    let buildings = a_registry(priced(Some(2)));
    let mut state = a_campaign();
    state
        .set_control(BEACH, Some(pirates()), &geography)
        .expect("the beach is a real cell");
    state
        .factions
        .get_mut(&pirates())
        .expect("the campaign carries this faction")
        .resources
        .insert(GATHERED_RESOURCE_KEY.to_owned(), 5);
    with_goals(&mut state, &pirates(), vec![Goal::Develop]);

    let events = act(&mut state, &pirates(), &geography, &buildings);
    assert_eq!(events.len(), 1, "{events:?}");
    let StrategicEvent::BuildingStarted {
        faction_id,
        building_instance_id,
        def_id,
        cell_id,
        day,
    } = &events[0]
    else {
        panic!("Develop must report the building it started: {events:?}");
    };
    assert_eq!(faction_id, &pirates());
    assert_eq!(def_id, "building.test.pirate_post");
    assert_eq!(cell_id, BEACH);
    assert_eq!(*day, state.campaign_day);
    assert_eq!(
        state.buildings.get(building_instance_id).unwrap().state,
        BuildingState::UnderConstruction,
        "a building is placed, not finished"
    );
    assert_eq!(
        held(&state, &pirates(), GATHERED_RESOURCE_KEY),
        3,
        "the construction cost came out of the stockpile"
    );
}

#[test]
fn develop_skips_with_a_reason_and_builds_nothing() {
    let geography = Geography::black_beach_vertical_slice();
    let costly = a_registry(priced(Some(2)));
    let free = a_registry(priced(None));

    let mut state = a_campaign();
    with_goals(&mut state, &pirates(), vec![Goal::Develop]);
    let events = act(&mut state, &pirates(), &geography, &free);
    assert!(
        matches!(
            &events[..],
            [StrategicEvent::ActionSkipped { reason, goal, .. }]
                if *reason == ActionSkipReason::NoHeldCell && *goal == Goal::Develop
        ),
        "{events:?}"
    );

    let mut state = a_campaign();
    let elves = ConceptKey::Elves.faction_id();
    state
        .set_control(BEACH, Some(elves.clone()), &geography)
        .expect("the beach is a real cell");
    with_goals(&mut state, &elves, vec![Goal::Develop]);
    let events = act(&mut state, &elves, &geography, &free);
    assert!(
        matches!(
            &events[..],
            [StrategicEvent::ActionSkipped { reason, .. }]
                if *reason == ActionSkipReason::NoCompatibleBuilding
        ),
        "{events:?}"
    );

    let mut state = a_campaign();
    state
        .set_control(BEACH, Some(pirates()), &geography)
        .expect("the beach is a real cell");
    with_goals(&mut state, &pirates(), vec![Goal::Develop]);
    let events = act(&mut state, &pirates(), &geography, &costly);
    assert!(
        matches!(
            &events[..],
            [StrategicEvent::ActionSkipped { reason, .. }]
                if *reason == ActionSkipReason::InsufficientResource {
                    key: "resource.open.gathered".into(),
                    held: 0,
                    needed: 2,
                }
        ),
        "{events:?}"
    );
    assert!(state.buildings.is_empty(), "a refused hour builds nothing");

    let mut state = a_campaign();
    state
        .set_control(BEACH, Some(pirates()), &geography)
        .expect("the beach is a real cell");
    with_goals(&mut state, &pirates(), vec![Goal::Develop]);
    for _ in 0..2 {
        let events = act(&mut state, &pirates(), &geography, &free);
        assert!(matches!(events[0], StrategicEvent::BuildingStarted { .. }));
        state.strategic_clock.hour_of_day += 1;
    }
    let events = act(&mut state, &pirates(), &geography, &free);
    assert!(
        matches!(
            &events[..],
            [StrategicEvent::ActionSkipped { reason, .. }]
                if *reason == ActionSkipReason::NoRoomToBuild
        ),
        "{events:?}"
    );
    assert_eq!(state.buildings.len(), 2, "a full cell takes no third");
}

#[test]
fn recover_gathers_a_trickle_from_held_ground_only() {
    let geography = Geography::black_beach_vertical_slice();
    let buildings = a_registry(priced(None));
    let mut state = a_campaign();
    with_goals(&mut state, &pirates(), vec![Goal::Recover]);

    let events = act(&mut state, &pirates(), &geography, &buildings);
    assert!(
        matches!(
            &events[..],
            [StrategicEvent::ActionSkipped { reason, .. }]
                if *reason == ActionSkipReason::NoHeldCell
        ),
        "{events:?}"
    );

    for cell in [BEACH, ESTATE] {
        state
            .set_control(cell, Some(pirates()), &geography)
            .expect("both are real cells");
    }
    let events = act(&mut state, &pirates(), &geography, &buildings);
    assert_eq!(
        events,
        vec![StrategicEvent::Gathered {
            faction_id: pirates(),
            resource_key: GATHERED_RESOURCE_KEY.into(),
            amount: 2 * GATHER_PER_HELD_CELL_PER_HOUR,
            day: state.campaign_day,
        }]
    );
    assert_eq!(
        held(&state, &pirates(), GATHERED_RESOURCE_KEY),
        2 * GATHER_PER_HELD_CELL_PER_HOUR
    );
}

#[test]
fn expand_and_pressure_dispatch_a_force_along_a_real_route() {
    let geography = Geography::black_beach_vertical_slice();
    let buildings = a_registry(priced(None));
    let mut state = a_campaign();
    state
        .set_control(BEACH, Some(pirates()), &geography)
        .expect("the beach is a real cell");
    with_goals(&mut state, &pirates(), vec![Goal::Expand]);

    let events = act(&mut state, &pirates(), &geography, &buildings);
    let StrategicEvent::ForceDeparted {
        force_id,
        faction_id,
        from_cell_id,
        destination_cell_id,
        steps,
    } = &events[0]
    else {
        panic!("Expand must dispatch: {events:?}");
    };
    assert_eq!(faction_id, &pirates());
    assert_eq!(from_cell_id, BEACH);
    assert!(*steps >= 1, "a dispatch walks at least one real road");
    assert_eq!(
        geography.held_by(destination_cell_id, &state.ownership),
        None,
        "Expand reaches for ground nobody holds"
    );
    let record = state.forces.get(force_id.as_str()).unwrap();
    assert_eq!(record.assignment, "goal.expand");
    assert_eq!(
        *record.composition.get(FORCE_COMPOSITION_ACTOR_KEY).unwrap(),
        FORCE_COMPOSITION_HEADS
    );
    assert_eq!(
        state.ownership.get(destination_cell_id),
        None,
        "an order given is not ground taken"
    );

    state
        .set_control(ESTATE, Some(ConceptKey::Elves.faction_id()), &geography)
        .expect("the estate is a real cell");

    let raised = state.forces.len();
    with_goals(&mut state, &pirates(), vec![Goal::Pressure]);
    state.strategic_clock.hour_of_day += 1;
    let events = act(&mut state, &pirates(), &geography, &buildings);
    assert!(
        matches!(
            &events[..],
            [StrategicEvent::ActionSkipped { reason, .. }]
                if *reason == ActionSkipReason::NoIdleForce
        ),
        "{events:?}"
    );
    assert_eq!(state.forces.len(), raised, "one body, re-used");

    let force = state
        .forces
        .get_mut(force_id.as_str())
        .expect("the force was just raised");
    force.route.clear();
    force.destination_cell_id = None;
    force.position_cell_id = BEACH.to_owned();
    state.strategic_clock.hour_of_day += 1;
    let events = act(&mut state, &pirates(), &geography, &buildings);
    assert!(
        matches!(
            &events[..],
            [StrategicEvent::ForceDeparted { destination_cell_id, .. }]
                if geography.held_by(destination_cell_id, &state.ownership)
                    == Some(ConceptKey::Elves.faction_id())
        ),
        "Pressure reaches at a rival's ground: {events:?}"
    );
}

#[test]
fn a_march_with_nowhere_to_go_says_so() {
    let geography = Geography::black_beach_vertical_slice();
    let buildings = a_registry(priced(None));
    let mut state = a_campaign();
    state
        .set_control(BEACH, Some(pirates()), &geography)
        .expect("the beach is a real cell");
    with_goals(&mut state, &pirates(), vec![Goal::Pressure]);

    let events = act(&mut state, &pirates(), &geography, &buildings);
    assert!(
        matches!(
            &events[..],
            [StrategicEvent::ActionSkipped { reason, .. }]
                if *reason == ActionSkipReason::NoReachableTarget
        ),
        "nobody else holds anything, so there is nothing to push on: {events:?}"
    );
}

#[test]
fn consolidate_and_withdraw_journal_a_skip_rather_than_going_quiet() {
    let geography = Geography::black_beach_vertical_slice();
    let buildings = a_registry(priced(None));
    let mut state = a_campaign();
    state
        .set_control(BEACH, Some(pirates()), &geography)
        .expect("the beach is a real cell");
    with_goals(&mut state, &pirates(), vec![Goal::Consolidate, Goal::Withdraw]);

    let events = act(&mut state, &pirates(), &geography, &buildings);
    assert_eq!(
        events,
        vec![
            StrategicEvent::ActionSkipped {
                faction_id: pirates(),
                goal: Goal::Consolidate,
                reason: ActionSkipReason::NoActionAuthoredYet,
                day: state.campaign_day,
            },
            StrategicEvent::ActionSkipped {
                faction_id: pirates(),
                goal: Goal::Withdraw,
                reason: ActionSkipReason::NoActionAuthoredYet,
                day: state.campaign_day,
            },
        ]
    );
}

#[test]
fn an_eliminated_faction_does_not_act() {
    let geography = Geography::black_beach_vertical_slice();
    let buildings = a_registry(priced(None));
    let mut state = a_campaign();
    state
        .set_control(BEACH, Some(pirates()), &geography)
        .expect("the beach is a real cell");
    with_goals(&mut state, &pirates(), vec![Goal::Recover, Goal::Develop]);
    state
        .factions
        .get_mut(&pirates())
        .expect("the campaign carries this faction")
        .eliminated = true;

    assert!(act(&mut state, &pirates(), &geography, &buildings).is_empty());
    assert!(state.buildings.is_empty());
    assert!(state.factions.get(&pirates()).unwrap().resources.is_empty());
}

#[test]
fn the_hour_carries_the_acts_it_took() {
    let geography = Geography::black_beach_vertical_slice();
    let buildings = a_registry(priced(None));
    let factions = FactionDefinitions::new();
    let mut state = a_campaign();
    state
        .set_control(BEACH, Some(pirates()), &geography)
        .expect("the beach is a real cell");

    let mut acted = false;
    for _ in 0..24 {
        let events =
            state.strategic_tick(&geography, &factions, &buildings, &MachineDefinitions::new());
        acted |= events.iter().any(|event| {
            matches!(
                event,
                StrategicEvent::BuildingStarted { .. }
                    | StrategicEvent::Gathered { .. }
                    | StrategicEvent::ForceDeparted { .. }
                    | StrategicEvent::ActionSkipped { .. }
            )
        });
    }
    assert!(acted, "a day of a faction holding ground produced no act at all");
}
