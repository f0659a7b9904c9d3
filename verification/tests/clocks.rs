use island_strategy::clocks::{
    assistance_weight, region_corruption_pressure, HeatEvent, WeatherCondition, WeatherState,
    ASSISTANCE_WEIGHT_ADVANTAGED, ASSISTANCE_WEIGHT_CLOSING, HEAT_CORRUPTED_CELL_HELD,
    HEAT_PARTY_INTERFERENCE, HEAT_RITUAL_COMPLETED,
};
use island_strategy::faction::{FactionState, StrategicState};
use island_strategy::keyed::StrMap;

#[test]
fn no_heat_event_is_spelled_as_elapsed_time() {
    for event in [
        HeatEvent::RitualCompleted,
        HeatEvent::CorruptedCellHeld {
            cell_id: "world.cell.river_landing".into(),
        },
        HeatEvent::PartyInterference,
    ] {
        assert!(
            event.amount() > 0,
            "a heat event that moves nothing is not an input"
        );
    }
}

#[test]
fn weather_is_the_same_sky_every_time_it_is_asked() {
    for day in 1..40 {
        let first = WeatherState::draw(7, day, "world.region.black_beach", 0);
        let again = WeatherState::draw(7, day, "world.region.black_beach", 0);
        assert_eq!(first, again);
    }
}

#[test]
fn an_uncorrupted_region_never_draws_unnatural_weather() {
    for day in 1..500 {
        let weather = WeatherState::draw(7, day, "world.region.black_beach", 0);
        assert_ne!(weather.condition, WeatherCondition::Unnatural);
    }
}

#[test]
fn corruption_makes_unnatural_weather_reachable_and_more_common() {
    let count = |pressure: u8| {
        (1..500)
            .filter(|day| {
                WeatherState::draw(7, *day, "world.region.black_beach", pressure).condition
                    == WeatherCondition::Unnatural
            })
            .count()
    };
    let light = count(32);
    let heavy = count(224);
    assert!(light > 0, "some corruption must reach the corrupted end");
    assert!(
        heavy > light,
        "more corruption must mean more unnatural weather: {light} then {heavy}"
    );
}

#[test]
fn two_regions_do_not_share_one_sky() {
    let differ = (1..200).any(|day| {
        WeatherState::draw(7, day, "world.region.black_beach", 0)
            != WeatherState::draw(7, day, "world.region.river", 0)
    });
    assert!(differ, "weather must be drawn per region, not per day alone");
}

#[test]
fn assistance_is_gated_on_the_two_winning_states_only() {
    let state = |strategic_state| FactionState {
        strategic_state,
        ..FactionState::default()
    };
    assert_eq!(assistance_weight(Some(&state(StrategicState::Desperate))), 0);
    assert_eq!(assistance_weight(Some(&state(StrategicState::Recovering))), 0);
    assert_eq!(assistance_weight(Some(&state(StrategicState::Contesting))), 0);
    assert!(assistance_weight(Some(&state(StrategicState::Advantaged))) > 0);
    assert!(assistance_weight(Some(&state(StrategicState::Closing))) > 0);
    assert_eq!(assistance_weight(None), 0, "no faction, no assistance");
}

#[test]
fn an_eliminated_cthulhu_is_never_assisted() {
    let mut state = FactionState {
        strategic_state: StrategicState::Closing,
        ..FactionState::default()
    };
    state.eliminated = true;
    assert_eq!(assistance_weight(Some(&state)), 0);
}

#[test]
fn region_pressure_is_the_worst_cell_not_the_average() {
    let mut corruption = StrMap::new();
    corruption.insert("world.cell.a".to_owned(), 200u8);
    corruption.insert("world.cell.b".to_owned(), 0u8);
    assert_eq!(
        region_corruption_pressure(
            &corruption,
            &["world.cell.a", "world.cell.b", "world.cell.c"]
        ),
        200
    );
    assert_eq!(region_corruption_pressure(&corruption, &["world.cell.c"]), 0);
}

#[test]
fn each_heat_event_carries_its_named_amount() {
    assert_eq!(HeatEvent::RitualCompleted.amount(), HEAT_RITUAL_COMPLETED);
    assert_eq!(
        HeatEvent::CorruptedCellHeld { cell_id: "world.cell.x".into() }.amount(),
        HEAT_CORRUPTED_CELL_HELD
    );
    assert_eq!(HeatEvent::PartyInterference.amount(), HEAT_PARTY_INTERFERENCE);
}

#[test]
fn the_winning_states_carry_their_named_weights() {
    let mut state = FactionState::default();
    state.strategic_state = StrategicState::Advantaged;
    assert_eq!(assistance_weight(Some(&state)), ASSISTANCE_WEIGHT_ADVANTAGED);
    state.strategic_state = StrategicState::Closing;
    assert_eq!(assistance_weight(Some(&state)), ASSISTANCE_WEIGHT_CLOSING);
}

#[test]
fn a_drawn_sky_is_stamped_with_its_day_and_full_pressure_is_unnatural_most_days() {
    let weather = WeatherState::draw(7, 12, "world.region.black_beach", 0);
    assert_eq!(weather.drawn_on_day, 12);
    let unnatural = (1..100)
        .filter(|day| {
            WeatherState::draw(7, *day, "world.region.black_beach", 255).condition
                == WeatherCondition::Unnatural
        })
        .count();
    assert!(unnatural > 90);
}
