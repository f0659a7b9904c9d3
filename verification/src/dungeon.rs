//! [`DungeonContext`] and the generation signature: the same context always
//! yields the same rooms, and a different owner or tier never collides.
//!
//! The unit of generation is not a level but a context read off the board,
//! and the signature is FNV-1a over the context's canonical text, every field
//! in order. The world dimensions it reads -- corruption, hidden pressure and
//! the campaign day -- enter as bands, so one point of any of them does not
//! regenerate a dungeon, but crossing a threshold does.

use vstd::prelude::*;

use crate::building::{BuildingDefinition, BuildingDefinitions, BuildingError, BuildingInstance, TierState};
use crate::clocks::{WeatherCondition, CONFRONTATION_DAY};
use crate::expedition::ExpeditionState;
use crate::geography::{has_location, holder, lemma_first_location, location_at, Geography};
use crate::journal::{field, list_text, num, opt_field, put, put_field, put_list, put_num};
use crate::keyed::StrSet;
use crate::text::{owned, push_str, str_eq};
use crate::world::{fnv_chars, fnv_str, mix, mix_seed, FNV_OFFSET_BASIS};

verus! {

/// The `dungeon_relationship` of a building that is deliberately not one.
pub const NOT_A_DUNGEON: &'static str = "none";

/// The key room seeds are mixed under.
pub const ROOM_SEED_KEY: &'static str = "dungeon.room";

/// Lowest corruption in each band. Provisional.
pub const CORRUPTION_BAND_TOUCHED: u8 = 1;
pub const CORRUPTION_BAND_SPREADING: u8 = 64;
pub const CORRUPTION_BAND_CONSUMED: u8 = 192;

/// Lowest hidden pressure in each band. Provisional.
pub const HEAT_BAND_STIRRING: u32 = 100;
pub const HEAT_BAND_RISING: u32 = 400;
pub const HEAT_BAND_IMMINENT: u32 = 800;

/// First campaign day of each epoch. Provisional, but for the last, which is
/// the day the confrontation can begin.
pub const EPOCH_ESTABLISHMENT_DAY: u32 = 25;
pub const EPOCH_PRESSURE_DAY: u32 = 60;
pub const EPOCH_ENDGAME_DAY: u32 = CONFRONTATION_DAY;

/// Budgets per tier and per corruption band. Provisional.
pub const ENCOUNTER_BUDGET_PER_TIER: u32 = 3;
pub const HAZARD_BUDGET_PER_TIER: u32 = 2;
pub const HAZARD_BUDGET_PER_CORRUPTION_BAND: u32 = 1;

/// How far corruption has gone at the dungeon's cell, as a band.
#[derive(Clone, Copy, Debug, PartialEq, Eq, PartialOrd, Ord, Structural)]
pub enum CorruptionBand {
    Untouched,
    Touched,
    Spreading,
    Consumed,
}

impl CorruptionBand {
    pub open spec fn band(corruption: u8) -> CorruptionBand {
        if corruption >= CORRUPTION_BAND_CONSUMED {
            CorruptionBand::Consumed
        } else if corruption >= CORRUPTION_BAND_SPREADING {
            CorruptionBand::Spreading
        } else if corruption >= CORRUPTION_BAND_TOUCHED {
            CorruptionBand::Touched
        } else {
            CorruptionBand::Untouched
        }
    }

    pub open spec fn step_count(self) -> u32 {
        match self {
            CorruptionBand::Untouched => 0,
            CorruptionBand::Touched => 1,
            CorruptionBand::Spreading => 2,
            CorruptionBand::Consumed => 3,
        }
    }

    pub open spec fn word(self) -> Seq<char> {
        match self {
            CorruptionBand::Untouched => "untouched"@,
            CorruptionBand::Touched => "touched"@,
            CorruptionBand::Spreading => "spreading"@,
            CorruptionBand::Consumed => "consumed"@,
        }
    }

    /// The band a cell's corruption falls in.
    pub fn of(corruption: u8) -> (r: Self)
        ensures
            r == CorruptionBand::band(corruption),
    {
        if corruption >= CORRUPTION_BAND_CONSUMED {
            CorruptionBand::Consumed
        } else if corruption >= CORRUPTION_BAND_SPREADING {
            CorruptionBand::Spreading
        } else if corruption >= CORRUPTION_BAND_TOUCHED {
            CorruptionBand::Touched
        } else {
            CorruptionBand::Untouched
        }
    }

    /// How many steps up the ladder this band is.
    pub fn steps(self) -> (r: u32)
        ensures
            r == self.step_count(),
    {
        match self {
            CorruptionBand::Untouched => 0,
            CorruptionBand::Touched => 1,
            CorruptionBand::Spreading => 2,
            CorruptionBand::Consumed => 3,
        }
    }

    fn as_str(self) -> (r: &'static str)
        ensures
            r@ == self.word(),
    {
        match self {
            CorruptionBand::Untouched => "untouched",
            CorruptionBand::Touched => "touched",
            CorruptionBand::Spreading => "spreading",
            CorruptionBand::Consumed => "consumed",
        }
    }
}

/// Hidden pressure as a band.
#[derive(Clone, Copy, Debug, PartialEq, Eq, PartialOrd, Ord, Structural)]
pub enum HeatBand {
    Dormant,
    Stirring,
    Rising,
    Imminent,
}

impl HeatBand {
    pub open spec fn band(heat: u32) -> HeatBand {
        if heat >= HEAT_BAND_IMMINENT {
            HeatBand::Imminent
        } else if heat >= HEAT_BAND_RISING {
            HeatBand::Rising
        } else if heat >= HEAT_BAND_STIRRING {
            HeatBand::Stirring
        } else {
            HeatBand::Dormant
        }
    }

    pub open spec fn word(self) -> Seq<char> {
        match self {
            HeatBand::Dormant => "dormant"@,
            HeatBand::Stirring => "stirring"@,
            HeatBand::Rising => "rising"@,
            HeatBand::Imminent => "imminent"@,
        }
    }

    /// The band a campaign's hidden pressure falls in.
    pub fn of(heat: u32) -> (r: Self)
        ensures
            r == HeatBand::band(heat),
    {
        if heat >= HEAT_BAND_IMMINENT {
            HeatBand::Imminent
        } else if heat >= HEAT_BAND_RISING {
            HeatBand::Rising
        } else if heat >= HEAT_BAND_STIRRING {
            HeatBand::Stirring
        } else {
            HeatBand::Dormant
        }
    }

    fn as_str(self) -> (r: &'static str)
        ensures
            r@ == self.word(),
    {
        match self {
            HeatBand::Dormant => "dormant",
            HeatBand::Stirring => "stirring",
            HeatBand::Rising => "rising",
            HeatBand::Imminent => "imminent",
        }
    }
}

/// The campaign day as a band.
#[derive(Clone, Copy, Debug, PartialEq, Eq, PartialOrd, Ord, Structural)]
pub enum WorldEpoch {
    Landfall,
    Establishment,
    Pressure,
    Endgame,
}

impl WorldEpoch {
    pub open spec fn band(day: u32) -> WorldEpoch {
        if day >= EPOCH_ENDGAME_DAY {
            WorldEpoch::Endgame
        } else if day >= EPOCH_PRESSURE_DAY {
            WorldEpoch::Pressure
        } else if day >= EPOCH_ESTABLISHMENT_DAY {
            WorldEpoch::Establishment
        } else {
            WorldEpoch::Landfall
        }
    }

    pub open spec fn word(self) -> Seq<char> {
        match self {
            WorldEpoch::Landfall => "landfall"@,
            WorldEpoch::Establishment => "establishment"@,
            WorldEpoch::Pressure => "pressure"@,
            WorldEpoch::Endgame => "endgame"@,
        }
    }

    /// The epoch a campaign day falls in.
    pub fn of(campaign_day: u32) -> (r: Self)
        ensures
            r == WorldEpoch::band(campaign_day),
    {
        if campaign_day >= EPOCH_ENDGAME_DAY {
            WorldEpoch::Endgame
        } else if campaign_day >= EPOCH_PRESSURE_DAY {
            WorldEpoch::Pressure
        } else if campaign_day >= EPOCH_ESTABLISHMENT_DAY {
            WorldEpoch::Establishment
        } else {
            WorldEpoch::Landfall
        }
    }

    fn as_str(self) -> (r: &'static str)
        ensures
            r@ == self.word(),
    {
        match self {
            WorldEpoch::Landfall => "landfall",
            WorldEpoch::Establishment => "establishment",
            WorldEpoch::Pressure => "pressure",
            WorldEpoch::Endgame => "endgame",
        }
    }
}

/// A named grammar is a dungeon; nothing authored, or `none`, is not.
pub open spec fn is_dungeon(rel: Seq<char>) -> bool {
    rel.len() > 0 && rel != NOT_A_DUNGEON@
}

/// Whether a building definition presents a dungeon at all.
pub fn presents_a_dungeon(dungeon_relationship: &str) -> (r: bool)
    ensures
        r == is_dungeon(dungeon_relationship@),
{
    !dungeon_relationship.is_empty() && !str_eq(dungeon_relationship, NOT_A_DUNGEON)
}

/// What went wrong reading or raiding a dungeon.
#[derive(Clone, Debug, PartialEq)]
pub enum DungeonError {
    /// A failure the building vocabulary already names.
    Building(BuildingError),
    /// The building exists and is not a dungeon.
    NotADungeon { id: String },
}

impl From<BuildingError> for DungeonError {
    fn from(error: BuildingError) -> (r: Self) {
        DungeonError::Building(error)
    }
}

impl vstd::std_specs::convert::FromSpecImpl<BuildingError> for DungeonError {
    open spec fn obeys_from_spec() -> bool {
        true
    }

    open spec fn from_spec(v: BuildingError) -> Self {
        DungeonError::Building(v)
    }
}

/// The generation context of one dungeon, every field of which folds into the
/// signature.
#[derive(Clone, Debug, Default, PartialEq, Eq)]
pub struct DungeonContext {
    pub campaign_seed: u64,
    pub node_id: String,
    pub entrance_building_id: String,
    pub owning_faction_id: Option<String>,
    pub building_archetype_id: String,
    pub building_tier: u32,
    pub upgrade_signature: u64,
    pub corruption_band: CorruptionBand,
    pub weather_state: WeatherCondition,
    pub world_epoch: WorldEpoch,
    pub generated_seed: u64,
    pub grammar_id: String,
    pub encounter_budget: u32,
    pub hazard_budget: u32,
    pub reward_budget: u32,
    pub generated_room_ids: Vec<String>,
    pub revision: u32,
    pub heat_band: HeatBand,
}

impl Default for CorruptionBand {
    fn default() -> (r: Self)
        ensures
            r == CorruptionBand::Untouched,
    {
        CorruptionBand::Untouched
    }
}

impl Default for HeatBand {
    fn default() -> (r: Self)
        ensures
            r == HeatBand::Dormant,
    {
        HeatBand::Dormant
    }
}

impl Default for WorldEpoch {
    fn default() -> (r: Self)
        ensures
            r == WorldEpoch::Landfall,
    {
        WorldEpoch::Landfall
    }
}

/// The canonical text of a context: every field, in order.
pub open spec fn context_text(c: DungeonContext) -> Seq<char> {
    num(c.campaign_seed as nat) + field(c.node_id@) + field(c.entrance_building_id@) + opt_field(
        match c.owning_faction_id {
            Some(f) => Some(f@),
            None => None,
        },
    ) + field(c.building_archetype_id@) + num(c.building_tier as nat) + num(c.upgrade_signature as nat) + field(
        c.corruption_band.word(),
    ) + field(c.weather_state.word()) + field(c.world_epoch.word()) + num(c.generated_seed as nat) + field(
        c.grammar_id@,
    ) + num(c.encounter_budget as nat) + num(c.hazard_budget as nat) + num(c.reward_budget as nat) + list_text(
        c.generated_room_ids@.map_values(|s: String| s@),
    ) + num(c.revision as nat) + field(c.heat_band.word())
}

/// The generation signature: FNV-1a over the context's canonical text.
pub open spec fn signature_of(c: DungeonContext) -> u64 {
    fnv_chars(FNV_OFFSET_BASIS, context_text(c))
}

/// The canonical text of one tier state.
pub open spec fn tier_text(t: TierState) -> Seq<char> {
    num(t.tier as nat) + num(t.construction_hours as nat) + list_text(t.construction_requirements.order()) + num(
        t.hit_points as nat,
    ) + field(t.notes@)
}

/// The text of the tier states a building at `tier` has climbed.
pub open spec fn climbed_text(ts: Seq<TierState>, tier: u32) -> Seq<char>
    decreases ts.len(),
{
    if ts.len() == 0 {
        ";"@
    } else {
        (if ts[0].tier <= tier { tier_text(ts[0]) } else { Seq::empty() }) + climbed_text(ts.drop_first(), tier)
    }
}

/// The upgrade history as far as the state knows it: a fold of the tier
/// ladder the building has actually climbed.
pub open spec fn upgrade_signature_of(b: BuildingInstance, d: BuildingDefinition) -> u64 {
    fnv_chars(FNV_OFFSET_BASIS, climbed_text(d.tier_states@, b.tier))
}

fn put_set(out: &mut String, items: &StrSet)
    ensures
        final(out)@ == old(out)@ + list_text(items.order()),
{
    let v = items.ids();
    proof {
        assert(v@.map_values(|b: String| b@) =~= items.order());
    }
    put_list(out, &v);
}

fn tier_string(out: &mut String, t: &TierState)
    ensures
        final(out)@ == old(out)@ + tier_text(*t),
{
    put_num(out, t.tier as u64);
    put_num(out, t.construction_hours as u64);
    put_set(out, &t.construction_requirements);
    put_num(out, t.hit_points as u64);
    put_field(out, t.notes.as_str());
    assert(out@ =~= old(out)@ + tier_text(*t));
}

fn upgrade_signature(instance: &BuildingInstance, definition: &BuildingDefinition) -> (r: u64)
    ensures
        r == upgrade_signature_of(*instance, *definition),
{
    let ts = &definition.tier_states;
    let mut text = String::new();
    let mut i: usize = 0;
    proof {
        assert(ts@.skip(0) =~= ts@);
    }
    while i < ts.len()
        invariant
            i <= ts@.len(),
            text@ + climbed_text(ts@.skip(i as int), instance.tier) == climbed_text(ts@, instance.tier),
        decreases ts@.len() - i,
    {
        proof {
            assert(ts@.skip(i as int).drop_first() =~= ts@.skip(i + 1));
            assert(ts@.skip(i as int)[0] == ts@[i as int]);
        }
        let ghost before = text@;
        if ts[i].tier <= instance.tier {
            tier_string(&mut text, &ts[i]);
        }
        proof {
            assert(before + climbed_text(ts@.skip(i as int), instance.tier) =~= text@ + climbed_text(ts@.skip(i + 1), instance.tier));
        }
        i = i + 1;
    }
    proof {
        assert(ts@.skip(ts@.len() as int) =~= Seq::<TierState>::empty());
    }
    push_str(&mut text, ";");
    fnv_str(FNV_OFFSET_BASIS, text.as_str())
}

fn context_string(c: &DungeonContext) -> (r: String)
    ensures
        r@ == context_text(*c),
{
    let mut out = String::new();
    put_num(&mut out, c.campaign_seed);
    put_field(&mut out, c.node_id.as_str());
    put_field(&mut out, c.entrance_building_id.as_str());
    match &c.owning_faction_id {
        Some(f) => put_field(&mut out, f.as_str()),
        None => put(&mut out, "|~"),
    }
    put_field(&mut out, c.building_archetype_id.as_str());
    put_num(&mut out, c.building_tier as u64);
    put_num(&mut out, c.upgrade_signature);
    put_field(&mut out, c.corruption_band.as_str());
    put_field(&mut out, c.weather_state.as_str());
    put_field(&mut out, c.world_epoch.as_str());
    put_num(&mut out, c.generated_seed);
    put_field(&mut out, c.grammar_id.as_str());
    put_num(&mut out, c.encounter_budget as u64);
    put_num(&mut out, c.hazard_budget as u64);
    put_num(&mut out, c.reward_budget as u64);
    put_list(&mut out, &c.generated_room_ids);
    put_num(&mut out, c.revision as u64);
    put_field(&mut out, c.heat_band.as_str());
    assert(out@ =~= context_text(*c));
    out
}

/// The generation signature: FNV-1a over the context's canonical text. Pure
/// and total; the same context gives the same number forever.
pub fn dungeon_signature(context: &DungeonContext) -> (r: u64)
    ensures
        r == signature_of(*context),
{
    let text = context_string(context);
    fnv_str(FNV_OFFSET_BASIS, text.as_str())
}

/// The seed of the `room_index`-th room of the dungeon whose context folded to
/// `signature`: the same signature yields the same sequence forever.
pub fn room_seed(signature: u64, room_index: u32) -> (r: u64)
    ensures
        r == mix(signature, room_index, ROOM_SEED_KEY@, 0),
{
    mix_seed(signature, room_index, ROOM_SEED_KEY, 0)
}

/// `a * b`, saturating.
pub open spec fn sat_mul(a: u32, b: u32) -> u32 {
    if a as int * b as int > u32::MAX as int {
        u32::MAX
    } else {
        (a * b) as u32
    }
}

fn times(a: u32, b: u32) -> (r: u32)
    ensures
        r == sat_mul(a, b),
{
    proof {
        assert((a as int) * (b as int) <= 0xffff_fffe_0000_0001int) by (nonlinear_arith)
            requires
                a <= 0xffff_ffffint,
                b <= 0xffff_ffffint,
        ;
    }
    let wide: u64 = a as u64 * b as u64;
    if wide > u32::MAX as u64 {
        u32::MAX
    } else {
        wide as u32
    }
}

/// The region of a cell, if the graph carries the cell.
pub open spec fn region_of(g: Geography, cell: Seq<char>) -> Option<Seq<char>> {
    if exists|i: int| #[trigger] location_at(g, cell, i) {
        let i = choose|i: int| #[trigger] location_at(g, cell, i);
        Some(g.locations@[i].region_id@)
    } else {
        None
    }
}

/// Every field of the pre-generation context read off the board for this
/// building and record.
pub open spec fn context_of(
    c: DungeonContext,
    s: ExpeditionState,
    g: Geography,
    b: BuildingInstance,
    d: BuildingDefinition,
) -> bool {
    let corruption = if s.corruption.contents().contains_key(b.cell_id@) { s.corruption.contents()[b.cell_id@] } else { 0u8 };
    let band = CorruptionBand::band(corruption);
    &&& c.campaign_seed == s.rng_seed
    &&& c.node_id@ == b.cell_id@
    &&& c.entrance_building_id@ == b.id@
    &&& match c.owning_faction_id {
        Some(f) => holder(g, s.ownership.contents(), b.cell_id@) == Some(f@),
        None => holder(g, s.ownership.contents(), b.cell_id@) is None,
    }
    &&& c.building_archetype_id@ == b.def_id@
    &&& c.building_tier == b.tier
    &&& c.upgrade_signature == upgrade_signature_of(b, d)
    &&& c.corruption_band == band
    &&& c.weather_state == match region_of(g, b.cell_id@) {
        Some(r) => if s.weather.contents().contains_key(r) { s.weather.contents()[r].condition } else { WeatherCondition::Clear },
        None => WeatherCondition::Clear,
    }
    &&& c.world_epoch == WorldEpoch::band(s.campaign_day)
    &&& c.generated_seed == 0
    &&& c.grammar_id@ == d.dungeon_relationship@
    &&& c.encounter_budget == sat_mul(b.tier, ENCOUNTER_BUDGET_PER_TIER)
    &&& c.hazard_budget == crate::building::sat_add(sat_mul(b.tier, HAZARD_BUDGET_PER_TIER), (band.step_count() * HAZARD_BUDGET_PER_CORRUPTION_BAND) as u32)
    &&& c.reward_budget == b.stored_value
    &&& c.generated_room_ids@.len() == 0
    &&& c.revision == 0
    &&& c.heat_band == HeatBand::band(s.cthulhu_heat)
}

/// The context carries the weather drawn for the region its building's cell
/// lies in: where the graph places the cell in a region with a drawn
/// weather, that weather's condition is the context's.
pub proof fn lemma_context_carries_region_weather(
    c: DungeonContext,
    s: ExpeditionState,
    g: Geography,
    b: BuildingInstance,
    d: BuildingDefinition,
    i: int,
)
    requires
        context_of(c, s, g, b, d),
        location_at(g, b.cell_id@, i),
        s.weather.contents().contains_key(g.locations@[i].region_id@),
    ensures
        c.weather_state == s.weather.contents()[g.locations@[i].region_id@].condition,
{
    let k = choose|k: int| #[trigger] location_at(g, b.cell_id@, k);
    crate::geography::lemma_location_at_unique(g, b.cell_id@, i, k);
}

impl DungeonContext {
    /// The context for the dungeon `building_instance_id` is the way into,
    /// read off the board: a pure read. Refuses an instance the campaign does
    /// not carry, a definition the registry does not carry, and a building
    /// whose definition names no dungeon grammar. Returns the pre-generation
    /// context: no seed, no rooms, revision zero.
    pub fn of(
        state: &ExpeditionState,
        geography: &Geography,
        building_instance_id: &str,
        definitions: &BuildingDefinitions,
    ) -> (r: Result<Self, DungeonError>)
        ensures
            ({
                let bs = state.buildings.contents();
                let b = bs[building_instance_id@];
                let defs = definitions.records();
                let d = defs[b.def_id@];
                &&& r is Ok <==> bs.contains_key(building_instance_id@) && defs.contains_key(b.def_id@) && is_dungeon(
                    d.dungeon_relationship@,
                )
                &&& !bs.contains_key(building_instance_id@) ==> (r matches Err(DungeonError::Building(
                    BuildingError::UnknownBuilding { id },
                )) && id@ == building_instance_id@)
                &&& bs.contains_key(building_instance_id@) && !defs.contains_key(b.def_id@) ==> (r matches Err(
                    DungeonError::Building(BuildingError::UnknownDefinition { id }),
                ) && id@ == b.def_id@)
                &&& bs.contains_key(building_instance_id@) && defs.contains_key(b.def_id@) && !is_dungeon(
                    d.dungeon_relationship@,
                ) ==> (r matches Err(DungeonError::NotADungeon { id }) && id@ == building_instance_id@)
                &&& r matches Ok(c) ==> context_of(c, *state, *geography, b, d)
            }),
    {
        let instance = match state.buildings.get(building_instance_id) {
            Some(b) => b,
            None => return Err(DungeonError::Building(BuildingError::UnknownBuilding { id: owned(building_instance_id) })),
        };
        let definition = match definitions.require(instance.def_id.as_str()) {
            Ok(d) => d,
            Err(e) => return Err(DungeonError::Building(e)),
        };
        if !presents_a_dungeon(definition.dungeon_relationship.as_str()) {
            return Err(DungeonError::NotADungeon { id: owned(building_instance_id) });
        }
        let corruption: u8 = match state.corruption.get(instance.cell_id.as_str()) {
            Some(v) => *v,
            None => 0,
        };
        let corruption_band = CorruptionBand::of(corruption);
        let weather_state = match geography.location(instance.cell_id.as_str()) {
            Some(location) => match state.weather.get(location.region_id.as_str()) {
                Some(w) => w.condition,
                None => WeatherCondition::Clear,
            },
            None => WeatherCondition::Clear,
        };
        proof {
            if exists|i: int| #[trigger] location_at(*geography, instance.cell_id@, i) {
                let i = choose|i: int| #[trigger] location_at(*geography, instance.cell_id@, i);
                assert forall|j: int| #[trigger] location_at(*geography, instance.cell_id@, j) implies j == i by {
                    if j < i {
                        assert(geography.locations@[j].id@ == instance.cell_id@);
                    } else if j > i {
                        assert(geography.locations@[i].id@ == instance.cell_id@);
                    }
                }
            } else {
                assert(!has_location(*geography, instance.cell_id@)) by {
                    if has_location(*geography, instance.cell_id@) {
                        let k = choose|k: int| 0 <= k < geography.locations@.len() && #[trigger] geography.locations@[k].id@ == instance.cell_id@;
                        lemma_first_location(*geography, instance.cell_id@, k);
                    }
                }
            }
        }
        Ok(DungeonContext {
            campaign_seed: state.rng_seed,
            node_id: instance.cell_id.clone(),
            entrance_building_id: instance.id.clone(),
            owning_faction_id: geography.held_by(instance.cell_id.as_str(), &state.ownership),
            building_archetype_id: instance.def_id.clone(),
            building_tier: instance.tier,
            upgrade_signature: upgrade_signature(instance, definition),
            corruption_band,
            weather_state,
            world_epoch: WorldEpoch::of(state.campaign_day),
            generated_seed: 0,
            grammar_id: definition.dungeon_relationship.clone(),
            encounter_budget: times(instance.tier, ENCOUNTER_BUDGET_PER_TIER),
            hazard_budget: times(instance.tier, HAZARD_BUDGET_PER_TIER).saturating_add(
                corruption_band.steps() * HAZARD_BUDGET_PER_CORRUPTION_BAND,
            ),
            reward_budget: instance.stored_value,
            generated_room_ids: Vec::new(),
            revision: 0,
            heat_band: HeatBand::of(state.cthulhu_heat),
        })
    }

    /// This context's signature.
    pub fn signature(&self) -> (r: u64)
        ensures
            r == signature_of(*self),
    {
        dungeon_signature(self)
    }
}

/// The campaign carries this building, the registry its record, and the
/// record names a dungeon grammar.
pub open spec fn presents(s: ExpeditionState, defs: Map<Seq<char>, BuildingDefinition>, id: Seq<char>) -> bool {
    let bs = s.buildings.contents();
    &&& bs.contains_key(id)
    &&& defs.contains_key(bs[id].def_id@)
    &&& is_dungeon(defs[bs[id].def_id@].dungeon_relationship@)
}

impl ExpeditionState {
    /// The context for the dungeon this cell presents, or `None`: the first
    /// building standing on the cell, in order, that presents one.
    pub fn dungeon_context_at(&self, cell_id: &str, geography: &Geography, definitions: &BuildingDefinitions) -> (r: Option<DungeonContext>)
        ensures
            ({
                let bs = self.buildings@;
                let defs = definitions.records();
                &&& r matches Some(c) ==> exists|i: int|
                    0 <= i < bs.len() && (#[trigger] bs[i]).1.cell_id@ == cell_id@ && presents(*self, defs, bs[i].1.id@)
                        && context_of(
                        c,
                        *self,
                        *geography,
                        self.buildings.contents()[bs[i].1.id@],
                        defs[self.buildings.contents()[bs[i].1.id@].def_id@],
                    ) && forall|j: int|
                        0 <= j < i && (#[trigger] bs[j]).1.cell_id@ == cell_id@ ==> !presents(*self, defs, bs[j].1.id@)
                &&& r is None ==> forall|i: int|
                    0 <= i < bs.len() && (#[trigger] bs[i]).1.cell_id@ == cell_id@ ==> !presents(*self, defs, bs[i].1.id@)
            }),
    {
        let ghost bs = self.buildings@;
        let mut i: usize = 0;
        while i < self.buildings.len()
            invariant
                i <= bs.len(),
                bs == self.buildings@,
                forall|j: int|
                    0 <= j < i && (#[trigger] bs[j]).1.cell_id@ == cell_id@ ==> !presents(*self, definitions.records(), bs[j].1.id@),
            decreases bs.len() - i,
        {
            let b = self.buildings.value_at(i);
            if str_eq(b.cell_id.as_str(), cell_id) {
                match DungeonContext::of(self, geography, b.id.as_str(), definitions) {
                    Ok(c) => return Some(c),
                    Err(_) => {},
                }
            }
            i = i + 1;
        }
        None
    }

    /// Take up to `requested` from a dungeon's reward budget and report what
    /// was actually there: `min(requested, stored value)`, and the budget goes
    /// down by exactly that. Nothing puts it back. Refuses, before taking
    /// anything, an unknown building, a record the registry does not carry,
    /// and a building that is not a dungeon.
    pub fn draw_dungeon_reward(&mut self, building_instance_id: &str, requested: u32, definitions: &BuildingDefinitions) -> (r: Result<u32, DungeonError>)
        ensures
            r is Err ==> *final(self) == *old(self),
            ({
                let bs = old(self).buildings.contents();
                let b = bs[building_instance_id@];
                let defs = definitions.records();
                let drawn = if requested < b.stored_value { requested } else { b.stored_value };
                &&& r is Ok <==> presents(*old(self), defs, building_instance_id@)
                &&& !bs.contains_key(building_instance_id@) ==> (r matches Err(DungeonError::Building(
                    BuildingError::UnknownBuilding { id },
                )) && id@ == building_instance_id@)
                &&& bs.contains_key(building_instance_id@) && defs.contains_key(b.def_id@) && !is_dungeon(
                    defs[b.def_id@].dungeon_relationship@,
                ) ==> (r matches Err(DungeonError::NotADungeon { id }) && id@ == building_instance_id@)
                &&& r matches Ok(n) ==> {
                    &&& n == drawn
                    &&& final(self).buildings.contents() == bs.insert(
                        building_instance_id@,
                        BuildingInstance { stored_value: (b.stored_value - drawn) as u32, ..b },
                    )
                    &&& *final(self) == (ExpeditionState { buildings: final(self).buildings, ..*old(self) })
                }
            }),
    {
        let instance = match self.buildings.get(building_instance_id) {
            Some(b) => b,
            None => return Err(DungeonError::Building(BuildingError::UnknownBuilding { id: owned(building_instance_id) })),
        };
        let definition = match definitions.require(instance.def_id.as_str()) {
            Ok(d) => d,
            Err(e) => return Err(DungeonError::Building(e)),
        };
        if !presents_a_dungeon(definition.dungeon_relationship.as_str()) {
            return Err(DungeonError::NotADungeon { id: owned(building_instance_id) });
        }
        let mut drawn: u32 = 0;
        match self.buildings.get_mut(building_instance_id) {
            Some(b) => {
                drawn = if requested < b.stored_value { requested } else { b.stored_value };
                b.stored_value = b.stored_value - drawn;
            },
            None => {},
        }
        Ok(drawn)
    }
}

} // verus!
