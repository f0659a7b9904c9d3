use island_strategy::directive::{Intent, StrategicDirective};
use island_strategy::expedition::{require_stable_id, ExpeditionError, ExpeditionState};
use island_strategy::faction::{ConceptKey, FactionState};
use island_strategy::geography::Geography;
use island_strategy::journal::{entry_string, JournalEntry};
use island_strategy::keyed::{StrMap, StrSet};
use island_strategy::text::{
    decimal_string, is_blank, push_hex, starts_with, str_eq, str_lt, strip_prefix, trim_text,
};
use island_strategy::tick::{hour_draws, strategic_draw, StrategicEvent, PURPOSES};
use island_strategy::utility::{choose_goals, intent_goal_row, BoardView, Goal};
use island_strategy::world::{fnv_str, mix_seed, FNV_OFFSET_BASIS};

const BEACH: &str = "world.cell.black_beach";
const ESTATE: &str = "world.cell.damaged_estate";
const TERRACE: &str = "world.cell.reception_terrace";

fn pirates() -> String {
    ConceptKey::Pirates.faction_id()
}

fn a_campaign() -> (ExpeditionState, Geography) {
    let geography = Geography::black_beach_vertical_slice();
    let mut state = ExpeditionState::new(7, vec!["character.protagonist.captain".into()], BEACH)
        .expect("a fresh campaign constructs");
    state.factions.insert(pirates(), FactionState::new());
    state
        .factions
        .insert(ConceptKey::Elves.faction_id(), FactionState::new());
    (state, geography)
}

#[test]
fn fnv_folds_code_points_from_the_offset_basis() {
    assert_eq!(fnv_str(FNV_OFFSET_BASIS, ""), FNV_OFFSET_BASIS);
    assert_eq!(fnv_str(FNV_OFFSET_BASIS, "a"), 0xaf63_dc4c_8601_ec8c);
    assert_eq!(fnv_str(FNV_OFFSET_BASIS, "foobar"), 0x85944171f73967e8);
}

#[test]
fn a_mix_is_the_same_for_the_same_arguments_and_moves_with_each_one() {
    let base = mix_seed(7, 3, "world.region.river", 0);
    assert_eq!(base, mix_seed(7, 3, "world.region.river", 0));
    assert_ne!(base, mix_seed(8, 3, "world.region.river", 0));
    assert_ne!(base, mix_seed(7, 4, "world.region.river", 0));
    assert_ne!(base, mix_seed(7, 3, "world.region.black_beach", 0));
    assert_ne!(base, mix_seed(7, 3, "world.region.river", 1));
}

#[test]
fn an_hours_draws_are_one_per_purpose_and_differ_by_purpose() {
    let draws = hour_draws(7, 2, 5, &pirates());
    assert_eq!(draws.economy, strategic_draw(7, 2, 5, &pirates(), PURPOSES[0]));
    assert_eq!(draws.force, strategic_draw(7, 2, 5, &pirates(), PURPOSES[1]));
    assert_eq!(draws.diplomacy, strategic_draw(7, 2, 5, &pirates(), PURPOSES[2]));
    assert_ne!(draws.economy, draws.force);
    assert_eq!(draws, hour_draws(7, 2, 5, &pirates()));
    assert_ne!(draws, hour_draws(7, 2, 6, &pirates()));
}

#[test]
fn text_helpers_compare_trim_and_print_as_std_does() {
    assert!(str_eq("abc", "abc"));
    assert!(!str_eq("abc", "abd"));
    assert!(str_lt("abc", "abd"));
    assert!(str_lt("ab", "abc"));
    assert!(!str_lt("abc", "abc"));
    assert!(!str_lt("b", "abc"));
    assert!(starts_with("faction.elves", "faction."));
    assert!(!starts_with("faction", "faction."));
    assert_eq!(strip_prefix("faction.elves", "faction."), Some("elves".to_owned()));
    assert_eq!(strip_prefix("elves", "faction."), None);
    for sample in ["  a b  ", "\t\nx\u{a0}", "\u{3000}\u{2003}y z\u{2029}", "", "   ", "plain"] {
        assert_eq!(trim_text(sample), sample.trim());
        assert_eq!(is_blank(sample), sample.trim().is_empty());
    }
    for n in [0u64, 7, 10, 1234567890, u64::MAX] {
        assert_eq!(decimal_string(n), n.to_string());
    }
    let mut hex = String::from("0x");
    push_hex(&mut hex, 0xbeef, 8);
    assert_eq!(hex, "0x0000beef");
    let mut low = String::new();
    push_hex(&mut low, 0x1234_5678, 4);
    assert_eq!(low, "5678");
}

#[test]
fn a_stable_id_is_lowercase_dotted_and_names_its_field_when_refused() {
    for good in ["faction.elves", "world.cell.black_beach", "a.b_c.d9"] {
        assert_eq!(require_stable_id("test.field", good), Ok(()));
    }
    for bad in ["", "elves", ".elves", "elves.", "faction..elves", "Faction.elves", "faction.el ves"] {
        assert_eq!(
            require_stable_id("test.field", bad),
            Err(ExpeditionError::InvalidStableId {
                field: "test.field",
                value: bad.to_owned()
            })
        );
    }
}

#[test]
fn a_campaign_refuses_an_empty_party_and_an_unshaped_start() {
    assert_eq!(
        ExpeditionState::new(7, Vec::new(), BEACH),
        Err(ExpeditionError::EmptyParty)
    );
    assert!(matches!(
        ExpeditionState::new(7, vec!["character.protagonist.captain".into()], "Beach"),
        Err(ExpeditionError::InvalidStableId { .. })
    ));
    let (state, _) = a_campaign();
    assert_eq!(state.campaign_day, 1);
    assert_eq!(state.active_location_id, BEACH);
}

#[test]
fn control_of_an_unknown_cell_is_refused_and_the_save_overrides_the_authored_owner() {
    let (mut state, geography) = a_campaign();
    assert_eq!(
        state.set_control("world.cell.nowhere", Some(pirates()), &geography),
        Err(ExpeditionError::UnknownLocation {
            location_id: "world.cell.nowhere".into()
        })
    );
    assert_eq!(geography.held_by(BEACH, &state.ownership), None);
    state.set_control(BEACH, Some(pirates()), &geography).unwrap();
    assert_eq!(geography.held_by(BEACH, &state.ownership), Some(pirates()));
    state.set_control(BEACH, None, &geography).unwrap();
    assert_eq!(geography.held_by(BEACH, &state.ownership), None);
}

#[test]
fn the_slice_routes_around_its_gates_and_a_rival_end_raises_the_risk() {
    let geography = Geography::black_beach_vertical_slice();
    assert_eq!(geography.all_location_ids().len(), 6);
    let closed = StrSet::new();
    assert_eq!(geography.step_distance(BEACH, TERRACE, &closed), Some(3));
    let mut open = StrSet::new();
    open.insert("discovery.map_table.tidal_cut".to_owned());
    assert_eq!(geography.step_distance(BEACH, TERRACE, &open), Some(1));
    assert_eq!(
        geography
            .next_step_toward(BEACH, TERRACE, &closed)
            .map(|route| route.to_location_id.clone()),
        Some(ESTATE.to_owned())
    );
    assert_eq!(geography.step_distance(BEACH, "world.cell.tomb_archive_core", &closed), None);
    assert_eq!(geography.step_distance(BEACH, BEACH, &closed), Some(0));

    let road = geography
        .route("world.portal.black_beach_to_damaged_estate")
        .unwrap()
        .clone();
    let mut ownership = StrMap::new();
    assert_eq!(geography.effective_risk(&road, &ownership), road.risk_level);
    ownership.insert(BEACH.to_owned(), pirates());
    ownership.insert(ESTATE.to_owned(), ConceptKey::Elves.faction_id());
    assert!(geography.effective_risk(&road, &ownership) > road.risk_level);
    ownership.insert(ESTATE.to_owned(), pirates());
    assert_eq!(geography.effective_risk(&road, &ownership), road.risk_level);
}

#[test]
fn a_faction_with_ground_and_an_open_border_wants_to_expand_develop_and_recover() {
    let (mut state, geography) = a_campaign();
    let view = BoardView::of(&pirates(), &state, &geography);
    assert!(view.held.is_empty());
    assert_eq!(choose_goals(&state, &view), vec![Goal::Recover]);

    state.set_control(BEACH, Some(pirates()), &geography).unwrap();
    let view = BoardView::of(&pirates(), &state, &geography);
    assert!(view.held.contains(BEACH));
    assert!(view.open_frontier.contains(ESTATE));
    assert!(!view.open_frontier.contains(TERRACE), "the tidal cut is gated");
    assert_eq!(
        choose_goals(&state, &view),
        vec![Goal::Expand, Goal::Develop, Goal::Recover]
    );

    state
        .set_control(ESTATE, Some(ConceptKey::Elves.faction_id()), &geography)
        .unwrap();
    let view = BoardView::of(&pirates(), &state, &geography);
    assert_eq!(
        view.contested_frontier.get(ESTATE),
        Some(&ConceptKey::Elves.faction_id())
    );
    assert_eq!(
        choose_goals(&state, &view),
        vec![Goal::Develop, Goal::Pressure, Goal::Recover]
    );
}

#[test]
fn a_standing_directive_pulls_its_faction_toward_its_goals() {
    let (mut state, geography) = a_campaign();
    state.set_control(BEACH, Some(pirates()), &geography).unwrap();
    state
        .issue_directive(
            StrategicDirective::new("directive.pull_back", &pirates(), Intent::Withdraw),
            &geography,
        )
        .unwrap();
    let view = BoardView::of(&pirates(), &state, &geography);
    assert_eq!(intent_goal_row(Intent::Withdraw), [-1, -1, 0, -1, 0, 2]);
    assert_eq!(
        choose_goals(&state, &view),
        vec![Goal::Withdraw, Goal::Develop, Goal::Recover],
        "withdraw is pulled to four, expansion pulled down to nothing"
    );

    state
        .factions
        .get_mut(&pirates())
        .unwrap()
        .eliminated = true;
    assert!(choose_goals(&state, &view).is_empty());
}

#[test]
fn a_journal_entry_reads_as_its_stamp_then_its_event() {
    let entry = JournalEntry::new(3, 7, StrategicEvent::HourPassed { day: 3, hour: 7 });
    assert_eq!(entry_string(&entry), "|3|7|hour_passed|3|7");
    let gathered = JournalEntry::new(
        1,
        0,
        StrategicEvent::Gathered {
            faction_id: pirates(),
            resource_key: "resource.open.gathered".into(),
            amount: 2,
            day: 1,
        },
    );
    assert_eq!(
        entry_string(&gathered),
        "|1|0|gathered|faction.pirates|resource.open.gathered|2|1"
    );
}

#[test]
fn a_string_map_keeps_its_keys_ascending_and_one_entry_per_key() {
    let mut map = StrMap::new();
    map.insert("b".to_owned(), 2u32);
    map.insert("a".to_owned(), 1u32);
    map.insert("c".to_owned(), 3u32);
    map.insert("b".to_owned(), 20u32);
    assert_eq!(map.keys(), vec!["a", "b", "c"]);
    assert_eq!(map.get("b"), Some(&20));
    assert_eq!(map.len(), 3);
    assert!(map.remove("a"));
    assert!(!map.remove("a"));
    assert_eq!(map.keys(), vec!["b", "c"]);

    let mut set = StrSet::new();
    assert!(set.insert("y".to_owned()));
    assert!(set.insert("x".to_owned()));
    assert!(!set.insert("y".to_owned()));
    assert_eq!(set.ids(), vec!["x", "y"]);
    assert!(set.contains("x"));
    assert!(set.remove("x"));
    assert!(!set.contains("x"));
}
