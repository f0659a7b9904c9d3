use island_strategy::building::{BuildingDefinitions, BuildingInstance, BuildingState};
use island_strategy::expedition::ExpeditionState;
use island_strategy::faction::{ConceptKey, FactionDefinitions};
use island_strategy::force::{
    ForceError, ForceId, HaltReason, CONTESTED_ARRIVAL_RESOLVES_CONTROL, READINESS_COST_PER_HOP,
    READINESS_DRAW_BAND, READINESS_FULL, SUPPLY_COST_PER_HOP, SUPPLY_ON_RAISE,
};
use island_strategy::geography::Geography;
use island_strategy::keyed::{StrMap, StrSet};
use island_strategy::production::MachineDefinitions;
use island_strategy::tick::StrategicEvent;

const BEACH: &str = "world.cell.black_beach";
const ESTATE: &str = "world.cell.damaged_estate";
const LANDING: &str = "world.cell.river_landing";
const TERRACE: &str = "world.cell.reception_terrace";

fn a_composition() -> StrMap<u32> {
    let mut composition = StrMap::new();
    composition.insert("actor.test.spearman".to_owned(), 6u32);
    composition.insert("actor.test.scout".to_owned(), 2u32);
    composition
}

fn roles(names: &[&str]) -> StrSet {
    let mut set = StrSet::new();
    for name in names {
        set.insert((*name).to_owned());
    }
    set
}

fn a_campaign() -> ExpeditionState {
    ExpeditionState::new(7, vec!["character.protagonist.captain".into()], BEACH)
        .expect("a fresh campaign constructs")
}

fn raise(state: &mut ExpeditionState, geography: &Geography, at: &str) -> ForceId {
    state
        .raise_force(
            "force.test.column",
            &ConceptKey::Pirates.faction_id(),
            at,
            roles(&["role.test.line"]),
            a_composition(),
            "assignment.test.march",
            geography,
        )
        .expect("a force raises on a real cell with a real composition")
}

fn tick(state: &mut ExpeditionState, geography: &Geography) -> Vec<StrategicEvent> {
    state.strategic_tick(
        geography,
        &FactionDefinitions::new(),
        &BuildingDefinitions::new(),
        &MachineDefinitions::new(),
    )
}

#[test]
fn a_raised_force_stands_where_it_was_raised_with_no_orders() {
    let geography = Geography::black_beach_vertical_slice();
    let mut state = a_campaign();
    let id = raise(&mut state, &geography, BEACH);

    let force = state.forces.get(id.as_str()).unwrap();
    assert_eq!(force.position_cell_id, BEACH);
    assert_eq!(force.origin_cell_id, BEACH);
    assert!(force.route.is_empty());
    assert!(!force.is_marching());
    assert_eq!(force.destination_cell_id, None);
    assert_eq!(force.readiness, READINESS_FULL);
    assert_eq!(force.supply, SUPPLY_ON_RAISE);
    assert_eq!(force.strength, 8, "strength is derived from composition");
    assert_eq!(state.forces_at(BEACH).len(), 1);
    assert!(state.forces_at(TERRACE).is_empty());
}

#[test]
fn raising_refuses_a_bad_id_a_duplicate_an_unknown_cell_and_an_empty_body() {
    let geography = Geography::black_beach_vertical_slice();
    let mut state = a_campaign();

    assert!(matches!(
        state.raise_force(
            "Force.Test.Column",
            &ConceptKey::Pirates.faction_id(),
            BEACH,
            StrSet::new(),
            a_composition(),
            "",
            &geography,
        ),
        Err(ForceError::MalformedId(_))
    ));
    assert!(matches!(
        state.raise_force(
            "band.test.column",
            &ConceptKey::Pirates.faction_id(),
            BEACH,
            StrSet::new(),
            a_composition(),
            "",
            &geography,
        ),
        Err(ForceError::IdIsNotAForceId { .. })
    ));
    assert!(matches!(
        state.raise_force(
            "force.test.column",
            &ConceptKey::Pirates.faction_id(),
            "world.cell.nowhere",
            StrSet::new(),
            a_composition(),
            "",
            &geography,
        ),
        Err(ForceError::UnknownCell { .. })
    ));
    assert!(matches!(
        state.raise_force(
            "force.test.column",
            &ConceptKey::Pirates.faction_id(),
            BEACH,
            StrSet::new(),
            StrMap::new(),
            "",
            &geography,
        ),
        Err(ForceError::EmptyComposition { .. })
    ));
    assert!(state.forces.is_empty(), "every refusal came before mutation");

    raise(&mut state, &geography, BEACH);
    assert!(matches!(
        state.raise_force(
            "force.test.column",
            &ConceptKey::Pirates.faction_id(),
            BEACH,
            StrSet::new(),
            a_composition(),
            "",
            &geography,
        ),
        Err(ForceError::DuplicateForce { .. })
    ));
    assert_eq!(state.forces.len(), 1);
}

#[test]
fn dispatch_refuses_an_unknown_force_an_unknown_cell_and_an_unreachable_one() {
    let geography = Geography::black_beach_vertical_slice();
    let mut state = a_campaign();
    raise(&mut state, &geography, BEACH);

    assert!(matches!(
        state.dispatch_force("force.test.absent", TERRACE, &geography),
        Err(ForceError::UnknownForce { .. })
    ));
    assert!(matches!(
        state.dispatch_force("force.test.column", "world.cell.nowhere", &geography),
        Err(ForceError::UnknownCell { .. })
    ));
    state
        .discoveries
        .insert("observation.tomb_reception.true_name".to_owned());
    assert!(matches!(
        state.dispatch_force(
            "force.test.column",
            "world.cell.tomb_archive_core",
            &geography
        ),
        Err(ForceError::Unreachable { .. })
    ));
    assert!(
        state.forces.get("force.test.column").unwrap().route.is_empty(),
        "a refused order left no orders behind"
    );
}

#[test]
fn a_dispatched_force_plans_a_chain_of_real_roads_and_ignores_the_partys_doors() {
    let geography = Geography::black_beach_vertical_slice();
    let mut state = a_campaign();
    state
        .discoveries
        .insert("discovery.map_table.tidal_cut".to_owned());
    raise(&mut state, &geography, BEACH);

    let departed = state
        .dispatch_force("force.test.column", TERRACE, &geography)
        .expect("the terrace is reachable from the beach");
    let StrategicEvent::ForceDeparted { steps, .. } = &departed else {
        panic!("dispatch reports a departure, got {departed:?}");
    };
    assert_eq!(*steps, 3, "the party's shore shortcut is not the force's");

    let force = state.forces.get("force.test.column").unwrap();
    let mut standing = BEACH.to_owned();
    for route_id in &force.route {
        let route = geography.route(route_id).expect("a planned road is real");
        assert_eq!(route.from_location_id, standing, "the roads meet end to end");
        standing = route.to_location_id.clone();
    }
    assert_eq!(standing, TERRACE);
}

#[test]
fn a_force_marched_three_cells_arrives_carrying_exactly_what_it_left_with() {
    let geography = Geography::black_beach_vertical_slice();
    let mut state = a_campaign();
    raise(&mut state, &geography, BEACH);
    let departed_with = state.forces.get("force.test.column").unwrap().composition.clone();
    assert_eq!(departed_with, a_composition());

    state
        .dispatch_force("force.test.column", TERRACE, &geography)
        .expect("the terrace is reachable");

    let mut seen: Vec<StrategicEvent> = Vec::new();
    for _ in 0..12 {
        seen.extend(tick(&mut state, &geography));
        if seen
            .iter()
            .any(|event| matches!(event, StrategicEvent::ForceArrived { .. }))
        {
            break;
        }
    }

    let arrival = seen
        .iter()
        .find_map(|event| match event {
            StrategicEvent::ForceArrived {
                cell_id,
                composition,
                ..
            } => Some((cell_id.clone(), composition.clone())),
            _ => None,
        })
        .expect("the force arrives within the hours the road costs");
    assert_eq!(arrival.0, TERRACE);
    assert_eq!(
        arrival.1, departed_with,
        "the arrival event carries exactly the composition that left"
    );
    assert_eq!(
        state.forces.get("force.test.column").unwrap().composition,
        departed_with,
        "and the record still carries it -- the aggregate survives arrival"
    );

    let hops: Vec<(String, String)> = seen
        .iter()
        .filter_map(|event| match event {
            StrategicEvent::ForceMoved {
                from_cell_id,
                to_cell_id,
                ..
            } => Some((from_cell_id.clone(), to_cell_id.clone())),
            _ => None,
        })
        .collect();
    assert_eq!(
        hops,
        vec![
            (BEACH.to_owned(), ESTATE.to_owned()),
            (ESTATE.to_owned(), LANDING.to_owned()),
            (LANDING.to_owned(), TERRACE.to_owned()),
        ],
        "every cell on the way was stood in; nothing was skipped"
    );
    let force = state.forces.get("force.test.column").unwrap();
    assert!(force.route.is_empty());
    assert_eq!(force.position_cell_id, TERRACE);
    assert!(state.forces_at(TERRACE).len() == 1);
}

#[test]
fn a_force_out_of_supply_halts_where_it_stands_and_keeps_everything() {
    let geography = Geography::black_beach_vertical_slice();
    let mut state = a_campaign();
    raise(&mut state, &geography, BEACH);
    state
        .dispatch_force("force.test.column", TERRACE, &geography)
        .expect("the terrace is reachable");
    state
        .forces
        .get_mut("force.test.column")
        .expect("the force was raised")
        .supply = 0;

    let mut seen = Vec::new();
    for _ in 0..4 {
        seen.extend(tick(&mut state, &geography));
    }

    assert!(
        seen.iter().any(|event| matches!(
            event,
            StrategicEvent::ForceHalted {
                reason: HaltReason::OutOfSupply,
                ..
            }
        )),
        "a force with nothing left halts"
    );
    assert!(
        !seen
            .iter()
            .any(|event| matches!(event, StrategicEvent::ForceMoved { .. })),
        "and it does not move first"
    );
    let force = state.forces.get("force.test.column").unwrap();
    assert_eq!(force.position_cell_id, BEACH);
    assert_eq!(force.composition, a_composition());
    assert_eq!(force.route.len(), 3, "it still holds its orders");
}

#[test]
fn marching_costs_readiness_and_supply() {
    let geography = Geography::black_beach_vertical_slice();
    let mut state = a_campaign();
    raise(&mut state, &geography, BEACH);
    state
        .dispatch_force("force.test.column", ESTATE, &geography)
        .expect("the estate is one road from the beach");
    tick(&mut state, &geography);

    let force = state.forces.get("force.test.column").unwrap();
    assert_eq!(force.position_cell_id, ESTATE);
    let expected = READINESS_FULL - READINESS_COST_PER_HOP;
    assert!(
        force.readiness >= expected - READINESS_DRAW_BAND
            && force.readiness <= expected + READINESS_DRAW_BAND,
        "readiness {} is outside the draw's band around {expected}",
        force.readiness
    );
    assert_eq!(force.supply, SUPPLY_ON_RAISE - SUPPLY_COST_PER_HOP);
}

#[test]
fn an_hour_leaves_a_force_with_no_orders_exactly_as_it_was() {
    let geography = Geography::black_beach_vertical_slice();
    let mut state = a_campaign();
    raise(&mut state, &geography, BEACH);
    let before = state.forces.get("force.test.column").unwrap().clone();

    let events = tick(&mut state, &geography);
    assert_eq!(*state.forces.get("force.test.column").unwrap(), before);
    assert!(
        !events
            .iter()
            .any(|event| !matches!(event, StrategicEvent::HourPassed { .. })),
        "a standing force is not an event"
    );
}

#[test]
fn progress_accrues_in_minutes_and_the_remainder_carries_forward() {
    let geography = Geography::black_beach_vertical_slice();
    let mut state = a_campaign();
    raise(&mut state, &geography, BEACH);
    state
        .dispatch_force("force.test.column", LANDING, &geography)
        .expect("the landing is two roads from the beach");

    let events = tick(&mut state, &geography);
    let moves = events
        .iter()
        .filter(|event| matches!(event, StrategicEvent::ForceMoved { .. }))
        .count();
    assert_eq!(moves, 2, "one hour crossed both short roads");
    let force = state.forces.get("force.test.column").unwrap();
    assert_eq!(force.position_cell_id, LANDING);
    assert_eq!(force.progress_minutes, 0);
}

fn march_to(
    state: &mut ExpeditionState,
    geography: &Geography,
    force_id: &str,
    destination: &str,
) -> Vec<StrategicEvent> {
    state
        .dispatch_force(force_id, destination, geography)
        .expect("the destination is on the slice");
    let mut events = Vec::new();
    for _ in 0..8 {
        events.extend(tick(state, &geography.clone()));
        if state.forces.get(force_id).unwrap().position_cell_id == destination {
            break;
        }
    }
    assert_eq!(
        state.forces.get(force_id).unwrap().position_cell_id,
        destination,
        "the force never got there, so there is no arrival to resolve"
    );
    events
}

fn control_taken(events: &[StrategicEvent]) -> Vec<&StrategicEvent> {
    events
        .iter()
        .filter(|event| matches!(event, StrategicEvent::ControlTaken { .. }))
        .collect()
}

#[test]
fn an_arrival_on_unheld_ground_takes_it() {
    let geography = Geography::black_beach_vertical_slice();
    let mut state = a_campaign();
    raise(&mut state, &geography, BEACH);
    assert_eq!(geography.held_by(ESTATE, &state.ownership), None);

    let events = march_to(&mut state, &geography, "force.test.column", ESTATE);

    assert_eq!(
        geography.held_by(ESTATE, &state.ownership),
        Some(ConceptKey::Pirates.faction_id()),
        "the force that reached unheld ground holds it"
    );
    let taken = control_taken(&events);
    assert_eq!(taken.len(), 1, "one arrival, one handover: {events:?}");
    let StrategicEvent::ControlTaken {
        faction_id,
        cell_id,
        from,
        building_instance_ids,
        ..
    } = taken[0]
    else {
        unreachable!("filtered above")
    };
    assert_eq!(*faction_id, ConceptKey::Pirates.faction_id());
    assert_eq!(cell_id, ESTATE);
    assert_eq!(*from, None, "nobody lost ground nobody held");
    assert!(building_instance_ids.is_empty(), "nothing stands there");
}

#[test]
fn an_arrival_on_an_undefended_rival_cell_takes_it_and_leaves_the_buildings_standing() {
    let geography = Geography::black_beach_vertical_slice();
    let mut state = a_campaign();
    let colonial = ConceptKey::ColonialPowers.faction_id();
    state
        .set_control(ESTATE, Some(colonial.clone()), &geography)
        .expect("the estate is on the slice");
    let standing = BuildingInstance {
        id: "building_instance.test.post".to_owned(),
        def_id: "building.coast_watch_post".to_owned(),
        cell_id: ESTATE.to_owned(),
        faction_id: colonial.clone(),
        tier: 1,
        hp: 40,
        state: BuildingState::Operational,
        ..Default::default()
    };
    state
        .buildings
        .insert(standing.id.clone(), standing.clone());
    raise(&mut state, &geography, BEACH);

    let events = march_to(&mut state, &geography, "force.test.column", ESTATE);

    assert_eq!(
        geography.held_by(ESTATE, &state.ownership),
        Some(ConceptKey::Pirates.faction_id())
    );
    let taken = control_taken(&events);
    assert_eq!(taken.len(), 1, "{events:?}");
    let StrategicEvent::ControlTaken {
        from,
        building_instance_ids,
        ..
    } = taken[0]
    else {
        unreachable!("filtered above")
    };
    assert_eq!(
        *from,
        Some(colonial.clone()),
        "the event names the faction that lost the cell"
    );
    assert_eq!(
        *building_instance_ids,
        vec!["building_instance.test.post".to_owned()],
        "the event carries what stands on the ground that changed hands"
    );
    assert_eq!(
        *state.buildings.get("building_instance.test.post").unwrap(),
        standing,
        "a building on a cell that changed hands is not captured, ruined or reassigned"
    );
}

#[test]
fn an_arrival_on_a_defended_cell_changes_nothing_and_says_so() {
    let geography = Geography::black_beach_vertical_slice();
    let mut state = a_campaign();
    let colonial = ConceptKey::ColonialPowers.faction_id();
    state
        .set_control(ESTATE, Some(colonial.clone()), &geography)
        .expect("the estate is on the slice");
    state
        .raise_force(
            "force.test.garrison",
            &colonial,
            ESTATE,
            StrSet::new(),
            a_composition(),
            "assignment.test.hold",
            &geography,
        )
        .expect("a garrison raises on the cell its faction holds");
    raise(&mut state, &geography, BEACH);

    let events = march_to(&mut state, &geography, "force.test.column", ESTATE);

    assert_eq!(
        geography.held_by(ESTATE, &state.ownership),
        Some(colonial.clone()),
        "a defended cell does not change hands"
    );
    assert!(control_taken(&events).is_empty(), "nothing was taken: {events:?}");
    let contested: Vec<&StrategicEvent> = events
        .iter()
        .filter(|event| matches!(event, StrategicEvent::ArrivalContested { .. }))
        .collect();
    assert_eq!(contested.len(), 1, "{events:?}");
    let StrategicEvent::ArrivalContested {
        faction_id,
        cell_id,
        held_by,
        defender_force_ids,
        ..
    } = contested[0]
    else {
        unreachable!("filtered above")
    };
    assert_eq!(*faction_id, ConceptKey::Pirates.faction_id());
    assert_eq!(cell_id, ESTATE);
    assert_eq!(*held_by, colonial);
    assert_eq!(
        *defender_force_ids,
        vec![ForceId::new("force.test.garrison").expect("a well-shaped force ID")],
        "the record names who was standing there"
    );
    assert!(!CONTESTED_ARRIVAL_RESOLVES_CONTROL);
}

#[test]
fn michaels_cells_and_forces_obey_the_same_three_rules() {
    let geography = Geography::black_beach_vertical_slice();
    let mut state = a_campaign();
    let michael = ConceptKey::Michael.faction_id();
    state
        .set_control(ESTATE, Some(michael.clone()), &geography)
        .expect("the estate is on the slice");
    raise(&mut state, &geography, BEACH);

    let events = march_to(&mut state, &geography, "force.test.column", ESTATE);
    let taken = control_taken(&events);
    assert_eq!(taken.len(), 1, "{events:?}");
    let StrategicEvent::ControlTaken { from, .. } = taken[0] else {
        unreachable!("filtered above")
    };
    assert_eq!(
        *from,
        Some(michael.clone()),
        "an undefended cell of Michael's falls like any other"
    );

    state
        .raise_force(
            "force.test.michaels_column",
            &michael,
            ESTATE,
            StrSet::new(),
            a_composition(),
            "assignment.test.march",
            &geography,
        )
        .expect("Michael's faction raises a body like any other");
    let events = march_to(&mut state, &geography, "force.test.michaels_column", LANDING);
    let taken = control_taken(&events);
    assert_eq!(taken.len(), 1, "{events:?}");
    let StrategicEvent::ControlTaken {
        faction_id,
        cell_id,
        ..
    } = taken[0]
    else {
        unreachable!("filtered above")
    };
    assert_eq!(*faction_id, michael);
    assert_eq!(cell_id, LANDING, "and his column takes ground like any other");
}

#[test]
fn an_arrival_on_ground_the_faction_already_holds_reports_nothing() {
    let geography = Geography::black_beach_vertical_slice();
    let mut state = a_campaign();
    let pirates = ConceptKey::Pirates.faction_id();
    state
        .set_control(ESTATE, Some(pirates.clone()), &geography)
        .expect("the estate is on the slice");
    raise(&mut state, &geography, BEACH);

    let events = march_to(&mut state, &geography, "force.test.column", ESTATE);

    assert!(control_taken(&events).is_empty(), "{events:?}");
    assert!(
        !events
            .iter()
            .any(|event| matches!(event, StrategicEvent::ArrivalContested { .. })),
        "{events:?}"
    );
    assert_eq!(geography.held_by(ESTATE, &state.ownership), Some(pirates));
}

#[test]
fn a_force_id_must_carry_the_force_prefix_and_reads_back_as_written() {
    let id = ForceId::new("force.test.column").expect("a force ID");
    assert_eq!(id.as_str(), "force.test.column");
    assert_eq!(id.to_text(), "force.test.column");
    assert!(matches!(
        ForceId::new("band.test.column"),
        Err(ForceError::IdIsNotAForceId { .. })
    ));
    assert!(matches!(ForceId::new("Force"), Err(ForceError::MalformedId(_))));
}

#[test]
fn every_event_an_hour_reports_is_journalled_under_that_hour_in_order() {
    let geography = Geography::black_beach_vertical_slice();
    let mut state = a_campaign();
    raise(&mut state, &geography, BEACH);
    state
        .dispatch_force("force.test.column", TERRACE, &geography)
        .expect("the terrace is reachable from the beach");
    let day = state.campaign_day;
    let hour = state.strategic_clock.hour_of_day;
    let before = state.strategic_journal.recent().len();

    let events = tick(&mut state, &geography);
    assert!(events.len() >= 2, "a march and the hour itself are reported");
    let recent = state.strategic_journal.recent();
    assert_eq!(recent.len(), before + events.len());
    for (entry, event) in recent[before..].iter().zip(events.iter()) {
        assert_eq!(entry.day, day);
        assert_eq!(entry.hour, hour);
        assert_eq!(&entry.event, event);
    }
    assert!(matches!(events.last(), Some(StrategicEvent::HourPassed { .. })));
}
