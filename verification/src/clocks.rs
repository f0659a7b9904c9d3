//! The dual clocks -- world time against Cthulhu patience and heat -- plus
//! the weather and corruption that ride on the second of them.
//!
//! Nothing here moves heat as a consequence of a day, an hour, or a tick.
//! Heat moves through one door, `ExpeditionState::record_heat_event`, and
//! that door takes a [`HeatEvent`]: a thing that happened on the board, never
//! an elapsed quantity.

use vstd::prelude::*;

use crate::faction::{FactionState, StrategicState};
use crate::keyed::StrMap;
use crate::world::{mix, mix_seed};

verus! {

/// The concept-key ID of the faction the second clock belongs to.
pub const CTHULHU_FACTION_ID: &'static str = "faction.cthulhu";

/// The ceiling hidden pressure saturates at. Provisional tuning.
pub const MAX_HEAT: u32 = 1_000;

/// A completed ritual. Provisional tuning.
pub const HEAT_RITUAL_COMPLETED: u32 = 50;

/// One corrupted cell held through a contest. Provisional tuning.
pub const HEAT_CORRUPTED_CELL_HELD: u32 = 5;

/// The party acting against the Cthulhu faction's work. Provisional tuning.
pub const HEAT_PARTY_INTERFERENCE: u32 = 15;

/// The board events that are allowed to move hidden pressure. There is no
/// variant carrying a duration.
#[derive(Clone, Debug, PartialEq, Eq)]
pub enum HeatEvent {
    /// A ritual finished somewhere on the island.
    RitualCompleted,
    /// A corrupted cell was held through a contest.
    CorruptedCellHeld { cell_id: String },
    /// Captain Michael's party acted against the Cthulhu faction's work.
    PartyInterference,
}

impl HeatEvent {
    /// What each event is worth.
    pub open spec fn worth(&self) -> u32 {
        match self {
            HeatEvent::RitualCompleted => HEAT_RITUAL_COMPLETED,
            HeatEvent::CorruptedCellHeld { .. } => HEAT_CORRUPTED_CELL_HELD,
            HeatEvent::PartyInterference => HEAT_PARTY_INTERFERENCE,
        }
    }

    /// How much pressure this event is worth: a named constant, never an
    /// amount the caller chooses.
    pub fn amount(&self) -> (r: u32)
        ensures
            r == self.worth(),
            r > 0,
    {
        match self {
            HeatEvent::RitualCompleted => HEAT_RITUAL_COMPLETED,
            HeatEvent::CorruptedCellHeld { .. } => HEAT_CORRUPTED_CELL_HELD,
            HeatEvent::PartyInterference => HEAT_PARTY_INTERFERENCE,
        }
    }
}

/// The campaign day on which the confrontation can begin regardless of
/// anything else.
pub const CONFRONTATION_DAY: u32 = 100;

/// Which of the three routes opened the confrontation.
#[derive(Clone, Copy, Debug, PartialEq, Eq, Structural)]
pub enum ConfrontationTrigger {
    Discovery,
    DayHundred,
    MaximumHeat,
}

/// What the sky is doing over one region, ordinary end first.
#[derive(Clone, Copy, Debug, PartialEq, Eq, PartialOrd, Ord, Structural)]
pub enum WeatherCondition {
    Clear,
    Overcast,
    Rain,
    Storm,
    /// Weather that is not weather any more; only reachable where corruption
    /// has taken hold.
    Unnatural,
}

impl Default for WeatherCondition {
    /// Ordinary weather.
    fn default() -> (r: Self)
        ensures
            r == WeatherCondition::Clear,
    {
        WeatherCondition::Clear
    }
}

/// The four ordinary conditions a daily draw indexes, in order.
pub open spec fn ordinary(index: u64) -> WeatherCondition {
    if index % 4 == 0 {
        WeatherCondition::Clear
    } else if index % 4 == 1 {
        WeatherCondition::Overcast
    } else if index % 4 == 2 {
        WeatherCondition::Rain
    } else {
        WeatherCondition::Storm
    }
}

impl WeatherCondition {
    pub const ALL: [WeatherCondition; 5] = [
        WeatherCondition::Clear,
        WeatherCondition::Overcast,
        WeatherCondition::Rain,
        WeatherCondition::Storm,
        WeatherCondition::Unnatural,
    ];

    pub open spec fn word(self) -> Seq<char> {
        match self {
            WeatherCondition::Clear => "clear"@,
            WeatherCondition::Overcast => "overcast"@,
            WeatherCondition::Rain => "rain"@,
            WeatherCondition::Storm => "storm"@,
            WeatherCondition::Unnatural => "unnatural"@,
        }
    }

    /// The lowercase word the bridge would show.
    pub fn as_str(&self) -> (r: &'static str)
        ensures
            r@ == self.word(),
    {
        match self {
            WeatherCondition::Clear => "clear",
            WeatherCondition::Overcast => "overcast",
            WeatherCondition::Rain => "rain",
            WeatherCondition::Storm => "storm",
            WeatherCondition::Unnatural => "unnatural",
        }
    }
}

/// One region's weather, and the day it was drawn for.
#[derive(Clone, Copy, Debug, Default, PartialEq, Eq, Structural)]
pub struct WeatherState {
    pub condition: WeatherCondition,
    pub drawn_on_day: u32,
}

/// The weather draw: the region mixed under the day, then the purpose under
/// the same day.
pub open spec fn weather_draw_spec(rng_seed: u64, day: u32, region_id: Seq<char>) -> u64 {
    mix(mix(rng_seed, day, region_id, 0), day, "weather"@, 0)
}

/// `x` rotated left by thirteen bits.
pub open spec fn rotate13(x: u64) -> u64 {
    (x << 13u64) | (x >> 51u64)
}

/// The sky a draw gives under a corruption pressure: the corrupted end of the
/// axis takes a share of the outcomes in proportion to the pressure, and the
/// rest fall on the ordinary table.
pub open spec fn sky(draw: u64, corruption_pressure: u8) -> WeatherCondition {
    if draw % 256 < corruption_pressure as u64 {
        WeatherCondition::Unnatural
    } else {
        ordinary(rotate13(draw))
    }
}

/// The one random draw the weather adds: per region per day.
pub fn weather_draw(rng_seed: u64, day: u32, region_id: &str) -> (r: u64)
    ensures
        r == weather_draw_spec(rng_seed, day, region_id@),
{
    let under_region = mix_seed(rng_seed, day, region_id, 0);
    mix_seed(under_region, day, "weather", 0)
}

fn ordinary_at(index: u64) -> (r: WeatherCondition)
    ensures
        r == ordinary(index),
{
    let k = index % 4;
    if k == 0 {
        WeatherCondition::Clear
    } else if k == 1 {
        WeatherCondition::Overcast
    } else if k == 2 {
        WeatherCondition::Rain
    } else {
        WeatherCondition::Storm
    }
}

impl WeatherState {
    /// One region's weather for one day. Pure and total: the same arguments
    /// give the same sky on every machine. An uncorrupted region never draws
    /// `Unnatural`.
    pub fn draw(rng_seed: u64, day: u32, region_id: &str, corruption_pressure: u8) -> (r: Self)
        ensures
            r.condition == sky(weather_draw_spec(rng_seed, day, region_id@), corruption_pressure),
            r.drawn_on_day == day,
            corruption_pressure == 0 ==> r.condition != WeatherCondition::Unnatural,
    {
        let draw = weather_draw(rng_seed, day, region_id);
        let share: u64 = corruption_pressure as u64;
        let condition = if draw % 256 < share {
            WeatherCondition::Unnatural
        } else {
            ordinary_at((draw << 13u64) | (draw >> 51u64))
        };
        WeatherState { condition, drawn_on_day: day }
    }
}

/// The ceiling a cell's corruption saturates at.
pub const MAX_CORRUPTION: u8 = 255;

/// Weight for a Cthulhu that is winning. Provisional tuning.
pub const ASSISTANCE_WEIGHT_ADVANTAGED: u32 = 1;

/// Weight for a Cthulhu closing on its victory. Provisional tuning.
pub const ASSISTANCE_WEIGHT_CLOSING: u32 = 3;

/// The assistance weight a faction state is entitled to.
pub open spec fn assistance(state: Option<FactionState>) -> u32 {
    match state {
        None => 0,
        Some(s) => if s.eliminated {
            0
        } else {
            match s.strategic_state {
                StrategicState::Advantaged => ASSISTANCE_WEIGHT_ADVANTAGED,
                StrategicState::Closing => ASSISTANCE_WEIGHT_CLOSING,
                _ => 0,
            }
        },
    }
}

/// How much weight a Cthulhu assistance event is entitled to: non-zero only
/// for a live faction that is Advantaged or Closing. A losing Cthulhu is not
/// helped, an absent or eliminated one is zero.
pub fn assistance_weight(state: Option<&FactionState>) -> (r: u32)
    ensures
        r == assistance(match state {
            Some(s) => Some(*s),
            None => None,
        }),
{
    match state {
        None => 0,
        Some(s) => {
            if s.eliminated {
                0
            } else {
                match s.strategic_state {
                    StrategicState::Advantaged => ASSISTANCE_WEIGHT_ADVANTAGED,
                    StrategicState::Closing => ASSISTANCE_WEIGHT_CLOSING,
                    StrategicState::Desperate => 0,
                    StrategicState::Recovering => 0,
                    StrategicState::Contesting => 0,
                }
            }
        },
    }
}

/// A cell's corruption, zero where none is recorded.
pub open spec fn corruption_at(corruption: Map<Seq<char>, u8>, cell: Seq<char>) -> u8 {
    if corruption.contains_key(cell) {
        corruption[cell]
    } else {
        0
    }
}

/// The highest corruption over a list of cells.
pub open spec fn highest_corruption(corruption: Map<Seq<char>, u8>, cells: Seq<Seq<char>>) -> u8
    decreases cells.len(),
{
    if cells.len() == 0 {
        0
    } else {
        let rest = highest_corruption(corruption, cells.drop_last());
        let here = corruption_at(corruption, cells.last());
        if here > rest {
            here
        } else {
            rest
        }
    }
}

/// A region's pressure is its worst cell: no cell of the list carries more
/// corruption, and unless it is zero it is the corruption one of the cells
/// carries.
pub proof fn lemma_highest_is_the_worst_cell(corruption: Map<Seq<char>, u8>, cells: Seq<Seq<char>>)
    ensures
        forall|i: int|
            0 <= i < cells.len() ==> (if corruption.contains_key(#[trigger] cells[i]) {
                corruption[cells[i]]
            } else {
                0u8
            }) <= highest_corruption(corruption, cells),
        highest_corruption(corruption, cells) == 0 || exists|i: int|
            0 <= i < cells.len() && corruption.contains_key(#[trigger] cells[i]) && corruption[cells[i]] == highest_corruption(
                corruption,
                cells,
            ),
    decreases cells.len(),
{
    if cells.len() > 0 {
        let t = cells.drop_last();
        lemma_highest_is_the_worst_cell(corruption, t);
        assert forall|i: int| 0 <= i < t.len() implies #[trigger] cells[i] == t[i] by {}
        if highest_corruption(corruption, t) != 0 && highest_corruption(corruption, cells) == highest_corruption(corruption, t) {
            let i = choose|i: int|
                0 <= i < t.len() && corruption.contains_key(#[trigger] t[i]) && corruption[t[i]] == highest_corruption(corruption, t);
            assert(cells[i] == t[i]);
        }
        let l = cells.len() - 1;
        assert(cells[l] == cells.last());
    }
}

/// The highest corruption any cell of a region carries: the worst cell, not
/// the average.
pub fn region_corruption_pressure(corruption: &StrMap<u8>, cell_ids_in_region: &[&str]) -> (r: u8)
    ensures
        r == highest_corruption(
            corruption.contents(),
            cell_ids_in_region@.map_values(|c: &str| c@),
        ),
{
    let ghost cells = cell_ids_in_region@.map_values(|c: &str| c@);
    let mut worst: u8 = 0;
    let mut i: usize = 0;
    while i < cell_ids_in_region.len()
        invariant
            i <= cell_ids_in_region@.len(),
            cells == cell_ids_in_region@.map_values(|c: &str| c@),
            worst == highest_corruption(corruption.contents(), cells.take(i as int)),
        decreases cell_ids_in_region@.len() - i,
    {
        let here: u8 = match corruption.get(cell_ids_in_region[i]) {
            Some(v) => *v,
            None => 0,
        };
        proof {
            assert(cells.take(i + 1).drop_last() =~= cells.take(i as int));
            assert(cells.take(i + 1).last() == cell_ids_in_region@[i as int]@);
        }
        if here > worst {
            worst = here;
        }
        i = i + 1;
    }
    proof {
        assert(cells.take(cell_ids_in_region@.len() as int) =~= cells);
    }
    worst
}

} // verus!
