use island_strategy::building::{
    BuildingDefinition, BuildingDefinitions, BuildingError, BuildingSocket, CaptureRules,
    RuinState, SocketKind, TierState, FIRST_TIER,
};
use island_strategy::clocks::{HeatEvent, WeatherCondition};
use island_strategy::dungeon::{
    dungeon_signature, presents_a_dungeon, room_seed, CorruptionBand, DungeonContext,
    DungeonError, HeatBand, WorldEpoch, CORRUPTION_BAND_CONSUMED, CORRUPTION_BAND_TOUCHED,
    EPOCH_ENDGAME_DAY, HEAT_BAND_IMMINENT, NOT_A_DUNGEON,
};
use island_strategy::expedition::ExpeditionState;
use island_strategy::faction::ConceptKey;
use island_strategy::geography::Geography;
use island_strategy::keyed::StrSet;
use std::collections::HashSet;

const BEACH: &str = "world.cell.black_beach";
const TERRACE: &str = "world.cell.reception_terrace";
const TOMB: &str = "building.test.tomb";
const SHED: &str = "building.test.shed";
const INSTANCE: &str = "building_instance.test.tomb";

fn pirates() -> String {
    ConceptKey::Pirates.faction_id()
}

fn elves() -> String {
    ConceptKey::Elves.faction_id()
}

fn tiers(count: u32) -> Vec<TierState> {
    (FIRST_TIER..FIRST_TIER + count)
        .map(|tier| TierState {
            tier,
            construction_hours: 0,
            construction_requirements: StrSet::new(),
            hit_points: 100 * tier,
            notes: String::new(),
        })
        .collect()
}

fn a_definition(id: &str, dungeon_relationship: &str) -> BuildingDefinition {
    BuildingDefinition {
        id: id.to_owned(),
        faction_compatibility: vec![ConceptKey::Pirates, ConceptKey::Elves],
        function: "a test building".into(),
        footprint_cells: 2,
        clearance_cells: 1,
        height_class: "needs decision".into(),
        entrance_sockets: vec![BuildingSocket {
            id: "socket.door".into(),
            kind: SocketKind::Entrance,
            offset_cells: 0,
        }],
        tier_states: tiers(3),
        capture_rules: CaptureRules::Capturable,
        ruin_state: RuinState::ClearsCompletely,
        dungeon_relationship: dungeon_relationship.to_owned(),
        ..BuildingDefinition::default()
    }
}

fn registry() -> BuildingDefinitions {
    let mut registry = BuildingDefinitions::new();
    registry
        .insert(a_definition(TOMB, "dungeon_grammar.test.tomb"))
        .expect("the tomb definition loads");
    registry
        .insert(a_definition(SHED, NOT_A_DUNGEON))
        .expect("the shed definition loads");
    registry
}

fn a_campaign(geography: &Geography, holder: &str) -> ExpeditionState {
    let definitions = registry();
    let mut state = ExpeditionState::new(7, vec!["character.protagonist.captain".into()], BEACH)
        .expect("a fresh campaign constructs");
    state
        .set_control(BEACH, Some(holder.to_owned()), geography)
        .expect("the beach is a real cell");
    state
        .place_building(INSTANCE, TOMB, BEACH, holder, geography, &definitions)
        .expect("the tomb is placed on ground its holder holds");
    state
}

fn a_context() -> DungeonContext {
    let geography = Geography::black_beach_vertical_slice();
    let state = a_campaign(&geography, &pirates());
    DungeonContext::of(&state, &geography, INSTANCE, &registry())
        .expect("the tomb presents a dungeon")
}

#[test]
fn owner_and_tier_never_collide() {
    let geography = Geography::black_beach_vertical_slice();
    let definitions = registry();

    let held_by_pirates = a_campaign(&geography, &pirates());
    let mut held_by_elves = a_campaign(&geography, &elves());

    let pirate_context = DungeonContext::of(&held_by_pirates, &geography, INSTANCE, &definitions)
        .expect("the tomb presents a dungeon");
    let elf_context = DungeonContext::of(&held_by_elves, &geography, INSTANCE, &definitions)
        .expect("the tomb presents a dungeon");
    assert_eq!(
        pirate_context.owning_faction_id.as_deref(),
        Some(pirates().as_str())
    );
    assert_eq!(elf_context.owning_faction_id.as_deref(), Some(elves().as_str()));
    assert_ne!(
        pirate_context.signature(),
        elf_context.signature(),
        "the same tomb under a different owner is a different dungeon"
    );

    held_by_elves
        .upgrade_building(INSTANCE, &StrSet::new(), &definitions)
        .expect("the tomb authors a second tier with no requirements");
    let upgraded = DungeonContext::of(&held_by_elves, &geography, INSTANCE, &definitions)
        .expect("the tomb presents a dungeon");
    assert_eq!(upgraded.building_tier, FIRST_TIER + 1);
    let signatures = HashSet::from([
        pirate_context.signature(),
        elf_context.signature(),
        upgraded.signature(),
    ]);
    assert_eq!(
        signatures.len(),
        3,
        "owner and tier are independent dimensions of the same signature"
    );
}

#[test]
fn repeated_farming_draws_the_budget_down_and_stops() {
    let geography = Geography::black_beach_vertical_slice();
    let definitions = registry();
    let mut state = a_campaign(&geography, &pirates());
    state
        .buildings
        .get_mut(INSTANCE)
        .expect("the tomb was placed")
        .stored_value = 10;

    let drawn: Vec<u32> = (0..3)
        .map(|_| {
            state
                .draw_dungeon_reward(INSTANCE, 6, &definitions)
                .expect("the tomb is a dungeon")
        })
        .collect();
    assert_eq!(drawn, vec![6, 4, 0], "the third raid finds an empty tomb");
    assert_eq!(drawn.iter().sum::<u32>(), 10, "a budget of ten pays ten");
    assert_eq!(state.buildings.get(INSTANCE).unwrap().stored_value, 0);

    for _ in 0..100 {
        assert_eq!(
            state
                .draw_dungeon_reward(INSTANCE, 6, &definitions)
                .expect("the tomb is still a dungeon"),
            0
        );
    }

    let context = DungeonContext::of(&state, &geography, INSTANCE, &definitions)
        .expect("the tomb presents a dungeon");
    assert_eq!(context.reward_budget, 0);
}

#[test]
fn a_draw_refuses_before_mutating() {
    let geography = Geography::black_beach_vertical_slice();
    let definitions = registry();
    let mut state = a_campaign(&geography, &pirates());
    state
        .place_building(
            "building_instance.test.shed",
            SHED,
            BEACH,
            &pirates(),
            &geography,
            &definitions,
        )
        .expect("a shed fits beside the tomb");
    state
        .buildings
        .get_mut("building_instance.test.shed")
        .expect("the shed was placed")
        .stored_value = 50;

    assert_eq!(
        state.draw_dungeon_reward("building_instance.test.nowhere", 1, &definitions),
        Err(DungeonError::Building(BuildingError::UnknownBuilding {
            id: "building_instance.test.nowhere".to_owned()
        }))
    );
    assert_eq!(
        state.draw_dungeon_reward("building_instance.test.shed", 1, &definitions),
        Err(DungeonError::NotADungeon {
            id: "building_instance.test.shed".to_owned()
        })
    );
    assert_eq!(
        state
            .buildings
            .get("building_instance.test.shed")
            .unwrap()
            .stored_value,
        50,
        "a refused draw takes nothing"
    );
}

#[test]
fn a_cell_presents_only_the_dungeon_standing_on_it() {
    let geography = Geography::black_beach_vertical_slice();
    let definitions = registry();
    let mut state = a_campaign(&geography, &pirates());

    let context = state
        .dungeon_context_at(BEACH, &geography, &definitions)
        .expect("the beach carries a tomb");
    assert_eq!(context.entrance_building_id, INSTANCE);
    assert_eq!(context.node_id, BEACH);
    assert_eq!(context.grammar_id, "dungeon_grammar.test.tomb");

    assert!(state
        .dungeon_context_at(TERRACE, &geography, &definitions)
        .is_none());
    assert!(state
        .dungeon_context_at("world.cell.nowhere", &geography, &definitions)
        .is_none());

    state
        .set_control(TERRACE, Some(pirates()), &geography)
        .expect("the terrace is a real cell");
    state
        .place_building(
            "building_instance.test.shed",
            SHED,
            TERRACE,
            &pirates(),
            &geography,
            &definitions,
        )
        .expect("a shed stands on the terrace");
    assert!(
        state
            .dungeon_context_at(TERRACE, &geography, &definitions)
            .is_none(),
        "a shed is a building, not a dungeon"
    );
}

#[test]
fn world_state_reaches_the_context_as_bands() {
    assert_eq!(CorruptionBand::of(0), CorruptionBand::Untouched);
    assert_eq!(CorruptionBand::of(CORRUPTION_BAND_TOUCHED), CorruptionBand::Touched);
    assert_eq!(CorruptionBand::of(CORRUPTION_BAND_CONSUMED), CorruptionBand::Consumed);
    assert_eq!(HeatBand::of(0), HeatBand::Dormant);
    assert_eq!(HeatBand::of(HEAT_BAND_IMMINENT), HeatBand::Imminent);
    assert_eq!(WorldEpoch::of(1), WorldEpoch::Landfall);
    assert_eq!(WorldEpoch::of(EPOCH_ENDGAME_DAY), WorldEpoch::Endgame);

    let geography = Geography::black_beach_vertical_slice();
    let definitions = registry();
    let mut state = a_campaign(&geography, &pirates());
    let before = DungeonContext::of(&state, &geography, INSTANCE, &definitions)
        .expect("the tomb presents a dungeon");
    assert_eq!(before.heat_band, HeatBand::Dormant);
    assert_eq!(before.corruption_band, CorruptionBand::Untouched);

    state.record_heat_event(HeatEvent::PartyInterference);
    let nudged = DungeonContext::of(&state, &geography, INSTANCE, &definitions)
        .expect("the tomb presents a dungeon");
    assert_eq!(
        nudged.signature(),
        before.signature(),
        "hidden pressure inside a band does not regenerate the dungeon"
    );

    for _ in 0..HEAT_BAND_IMMINENT {
        state.record_heat_event(HeatEvent::PartyInterference);
    }
    let crossed = DungeonContext::of(&state, &geography, INSTANCE, &definitions)
        .expect("the tomb presents a dungeon");
    assert_eq!(crossed.heat_band, HeatBand::Imminent);
    assert_ne!(crossed.signature(), before.signature());

    state
        .corrupt_cell(BEACH, CORRUPTION_BAND_CONSUMED, &geography)
        .expect("the beach is a real cell");
    let corrupted = DungeonContext::of(&state, &geography, INSTANCE, &definitions)
        .expect("the tomb presents a dungeon");
    assert_eq!(corrupted.corruption_band, CorruptionBand::Consumed);
    assert_eq!(corrupted.encounter_budget, before.encounter_budget);
    assert!(corrupted.hazard_budget > before.hazard_budget);
}

#[test]
fn the_same_board_reads_as_the_same_context_and_seeds() {
    let one = a_context();
    let two = a_context();
    assert_eq!(one, two, "two reads of the same board give the same context");
    assert_eq!(dungeon_signature(&one), dungeon_signature(&two));
    assert_eq!(one.signature(), dungeon_signature(&one));
    for room in 0..8 {
        assert_eq!(
            room_seed(one.signature(), room),
            room_seed(two.signature(), room)
        );
    }
    assert_ne!(room_seed(one.signature(), 0), room_seed(one.signature(), 1));
}

#[test]
fn a_fresh_context_has_not_generated_yet() {
    let context = a_context();
    assert_eq!(context.generated_seed, 0);
    assert!(context.generated_room_ids.is_empty());
    assert_eq!(context.revision, 0);
}

#[test]
fn only_a_named_grammar_presents_a_dungeon() {
    assert!(presents_a_dungeon("dungeon_grammar.test.tomb"));
    assert!(!presents_a_dungeon(NOT_A_DUNGEON));
    assert!(!presents_a_dungeon(""));
}

#[test]
fn a_building_refusal_passes_through_the_dungeon_rules_unchanged() {
    let refusal = BuildingError::UnknownCell { cell_id: TERRACE.into() };
    assert_eq!(DungeonError::from(refusal.clone()), DungeonError::Building(refusal));
}

#[test]
fn every_single_field_changes_the_signature() {
    let base = a_context();
    let baseline = dungeon_signature(&base);

    let mutations: Vec<(&str, fn(&mut DungeonContext))> = vec![
        ("campaign_seed", |c| c.campaign_seed ^= 0xFFFF),
        ("node_id", |c| c.node_id = TERRACE.to_owned()),
        ("entrance_building_id", |c| {
            c.entrance_building_id = "building_instance.test.other".to_owned()
        }),
        ("owning_faction_id", |c| c.owning_faction_id = Some(elves())),
        ("building_archetype_id", |c| c.building_archetype_id = SHED.to_owned()),
        ("building_tier", |c| c.building_tier += 1),
        ("upgrade_signature", |c| c.upgrade_signature ^= 0xFFFF),
        ("corruption_band", |c| c.corruption_band = CorruptionBand::Consumed),
        ("weather_state", |c| c.weather_state = WeatherCondition::Unnatural),
        ("world_epoch", |c| c.world_epoch = WorldEpoch::Endgame),
        ("generated_seed", |c| c.generated_seed ^= 0xFFFF),
        ("grammar_id", |c| c.grammar_id = "dungeon_grammar.test.other".to_owned()),
        ("encounter_budget", |c| c.encounter_budget += 1),
        ("hazard_budget", |c| c.hazard_budget += 1),
        ("reward_budget", |c| c.reward_budget += 1),
        ("generated_room_ids", |c| {
            c.generated_room_ids
                .push("dungeon_room.test.antechamber".to_owned())
        }),
        ("revision", |c| c.revision += 1),
        ("heat_band", |c| c.heat_band = HeatBand::Imminent),
    ];

    let mutation_count = mutations.len();
    let mut seen: HashSet<u64> = HashSet::from([baseline]);
    for (field, mutate) in mutations {
        let mut mutated = base.clone();
        mutate(&mut mutated);
        assert_ne!(mutated, base, "the mutation for {field} must actually change the context");
        let signature = dungeon_signature(&mutated);
        assert_ne!(signature, baseline, "changing {field} alone must change the signature");
        assert!(seen.insert(signature), "changing {field} collided with another field's signature");
        assert_ne!(
            room_seed(signature, 0),
            room_seed(baseline, 0),
            "changing {field} must change the first room's seed"
        );
    }
    assert_eq!(seen.len(), mutation_count + 1);
}
