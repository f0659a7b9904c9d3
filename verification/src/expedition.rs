//! The campaign's saved state, and the one rule every stable ID obeys.

use vstd::prelude::*;

use crate::building::BuildingInstance;
use crate::clocks::{HeatEvent, WeatherState, MAX_HEAT};
use crate::directive::StrategicDirective;
use crate::faction::FactionState;
use crate::force::ForceRecord;
use crate::geography::{has_location, Geography};
use crate::journal::StrategicJournal;
use crate::keyed::{StrMap, StrSet};
use crate::production::MachineInstance;
use crate::recruitment::{milestone_played, RecruitmentStage, RecruitmentState};
use crate::text::{chars_of, owned};
use crate::tick::StrategicClock;

verus! {

/// A character that may stand inside one dot-separated segment of a stable
/// ID: a lowercase ASCII letter, a digit, or an underscore.
pub open spec fn id_char(c: char) -> bool {
    ('a' <= c && c <= 'z') || ('0' <= c && c <= '9') || c == '_'
}

/// The stable-ID shape: two or more non-empty segments of lowercase letters,
/// digits and underscores, joined by single dots. `faction.pirates` and
/// `world.cell.black_beach` are stable IDs; `Pirates`, `yard`,
/// `Milestone Test` and `a..b` are not.
pub open spec fn is_stable_id(s: Seq<char>) -> bool {
    &&& s.len() > 0
    &&& forall|i: int| 0 <= i < s.len() ==> id_char(#[trigger] s[i]) || s[i] == '.'
    &&& s[0] != '.'
    &&& s[s.len() - 1] != '.'
    &&& forall|i: int| 0 <= i < s.len() - 1 ==> !(#[trigger] s[i] == '.' && s[i + 1] == '.')
    &&& exists|i: int| 0 <= i < s.len() && #[trigger] s[i] == '.'
}

/// What went wrong with a campaign-level command or record.
#[derive(Clone, Debug, PartialEq, Eq)]
pub enum ExpeditionError {
    /// `value`, in `field`, is not a stable ID.
    InvalidStableId { field: &'static str, value: String },
    /// A campaign needs someone in the party.
    EmptyParty,
    /// A place the world graph does not know.
    UnknownLocation { location_id: String },
    /// The milestone has already played for this woman.
    MilestoneAlreadyRecorded { character_id: String, milestone_id: String },
    /// No recruitment record exists for this character.
    UnknownRecruit { character_id: String },
}

/// The error `require_stable_id` answers with.
pub open spec fn invalid_id(e: ExpeditionError, field: &'static str, value: Seq<char>) -> bool {
    e matches ExpeditionError::InvalidStableId { field: f, value: v } && f == field && v@ == value
}

/// Accept `value` only if it has the stable-ID shape; `field` names where it
/// came from in the refusal.
pub fn require_stable_id(field: &'static str, value: &str) -> (r: Result<(), ExpeditionError>)
    ensures
        r is Ok <==> is_stable_id(value@),
        r matches Err(e) ==> invalid_id(e, field, value@),
{
    let cs = chars_of(value);
    let n = cs.len();
    let refused = Err(ExpeditionError::InvalidStableId { field, value: value.to_owned() });
    if n == 0 || cs[0] == '.' || cs[n - 1] == '.' {
        return refused;
    }
    let mut dot = false;
    let mut i: usize = 0;
    while i < n
        invariant
            n == cs@.len(),
            cs@ == value@,
            n > 0,
            cs@[0] != '.',
            cs@[n - 1] != '.',
            i <= n,
            forall|j: int| 0 <= j < i ==> id_char(#[trigger] cs@[j]) || cs@[j] == '.',
            forall|j: int| 0 <= j < i && j < n - 1 ==> !(#[trigger] cs@[j] == '.' && cs@[j + 1] == '.'),
            dot == exists|j: int| 0 <= j < i && #[trigger] cs@[j] == '.',
            refused matches Err(e) && invalid_id(e, field, value@),
        decreases n - i,
    {
        let c = cs[i];
        let ok = ('a' <= c && c <= 'z') || ('0' <= c && c <= '9') || c == '_' || c == '.';
        if !ok {
            assert(!(id_char(value@[i as int]) || value@[i as int] == '.'));
            return refused;
        }
        if c == '.' && i + 1 < n && cs[i + 1] == '.' {
            assert(value@[i as int] == '.' && value@[i + 1] == '.');
            return refused;
        }
        if c == '.' {
            dot = true;
        }
        i = i + 1;
    }
    if !dot {
        return refused;
    }
    Ok(())
}

/// Everything a campaign saves.
#[derive(Clone, Debug, PartialEq)]
pub struct ExpeditionState {
    /// The campaign's seed; every draw is mixed from it.
    pub rng_seed: u64,
    pub campaign_day: u32,
    /// The party's character IDs.
    pub party: Vec<String>,
    /// The cell the party stands in.
    pub active_location_id: String,
    /// What the party has found out; opens gated roads for the party.
    pub discoveries: StrSet,
    /// Who holds each cell, where the save overrides the authored owner.
    pub ownership: StrMap<String>,
    /// How corrupted each cell is.
    pub corruption: StrMap<u8>,
    /// Hidden pressure, moved only by board events.
    pub cthulhu_heat: u32,
    /// Each region's sky.
    pub weather: StrMap<WeatherState>,
    pub factions: StrMap<FactionState>,
    pub buildings: StrMap<BuildingInstance>,
    pub machines: StrMap<MachineInstance>,
    pub forces: StrMap<ForceRecord>,
    pub directives: StrMap<StrategicDirective>,
    /// Each woman's recruitment arc, by character ID.
    pub recruitment: StrMap<RecruitmentState>,
    pub strategic_journal: StrategicJournal,
    pub strategic_clock: StrategicClock,
}

/// Every member of the party is a stable ID.
pub open spec fn party_ok(party: Seq<String>) -> bool {
    forall|i: int| 0 <= i < party.len() ==> is_stable_id((#[trigger] party[i])@)
}

impl ExpeditionState {
    /// A fresh campaign on day one: the party standing at `start`, nothing
    /// held, nothing built, nothing recorded. Refuses an empty party and any
    /// ID that is not a stable ID.
    pub fn new(rng_seed: u64, party: Vec<String>, start: &str) -> (r: Result<Self, ExpeditionError>)
        ensures
            r is Ok <==> party@.len() > 0 && party_ok(party@) && is_stable_id(start@),
            party@.len() == 0 ==> r == Err::<Self, ExpeditionError>(ExpeditionError::EmptyParty),
            r matches Ok(s) ==> {
                &&& s.rng_seed == rng_seed
                &&& s.campaign_day == 1
                &&& s.party == party
                &&& s.active_location_id@ == start@
                &&& s.discoveries@ == Set::<Seq<char>>::empty()
                &&& s.ownership@.len() == 0
                &&& s.corruption@.len() == 0
                &&& s.cthulhu_heat == 0
                &&& s.weather@.len() == 0
                &&& s.factions@.len() == 0
                &&& s.buildings@.len() == 0
                &&& s.machines@.len() == 0
                &&& s.forces@.len() == 0
                &&& s.directives@.len() == 0
                &&& s.recruitment@.len() == 0
                &&& s.strategic_journal.window().len() == 0
                &&& s.strategic_journal.digest() == 0
                &&& s.strategic_journal.evicted() == 0
                &&& s.strategic_clock == (StrategicClock { hour_of_day: 0, hours_run: 0, draw_digest: 0 })
            },
    {
        if party.len() == 0 {
            return Err(ExpeditionError::EmptyParty);
        }
        let mut i: usize = 0;
        while i < party.len()
            invariant
                i <= party@.len(),
                forall|j: int| 0 <= j < i ==> is_stable_id((#[trigger] party@[j])@),
            decreases party@.len() - i,
        {
            match require_stable_id("party", party[i].as_str()) {
                Err(e) => return Err(e),
                Ok(()) => {},
            }
            i = i + 1;
        }
        match require_stable_id("active_location_id", start) {
            Err(e) => return Err(e),
            Ok(()) => {},
        }
        Ok(ExpeditionState {
            rng_seed,
            campaign_day: 1,
            party,
            active_location_id: owned(start),
            discoveries: StrSet::new(),
            ownership: StrMap::new(),
            corruption: StrMap::new(),
            cthulhu_heat: 0,
            weather: StrMap::new(),
            factions: StrMap::new(),
            buildings: StrMap::new(),
            machines: StrMap::new(),
            forces: StrMap::new(),
            directives: StrMap::new(),
            recruitment: StrMap::new(),
            strategic_journal: StrategicJournal::new(),
            strategic_clock: StrategicClock { hour_of_day: 0, hours_run: 0, draw_digest: 0 },
        })
    }

    /// The one writer of `ownership`. `Some(faction)` makes the save say the
    /// faction holds the cell; `None` drops the override, so the cell goes
    /// back to whoever the graph says holds it. Refuses a cell the graph does
    /// not know and a faction that is not a stable ID, before changing
    /// anything.
    pub fn set_control(&mut self, cell_id: &str, faction_id: Option<String>, geography: &Geography) -> (r: Result<(), ExpeditionError>)
        ensures
            r is Ok <==> has_location(*geography, cell_id@) && match faction_id {
                Some(f) => is_stable_id(f@),
                None => true,
            },
            r is Err ==> *final(self) == *old(self),
            !has_location(*geography, cell_id@) ==> (r matches Err(ExpeditionError::UnknownLocation { location_id })
                && location_id@ == cell_id@),
            r is Ok ==> final(self).ownership.contents() == match faction_id {
                Some(f) => old(self).ownership.contents().insert(cell_id@, f),
                None => old(self).ownership.contents().remove(cell_id@),
            },
            *final(self) == (ExpeditionState { ownership: final(self).ownership, ..*old(self) }),
    {
        if geography.location(cell_id).is_none() {
            return Err(ExpeditionError::UnknownLocation { location_id: owned(cell_id) });
        }
        match faction_id {
            Some(f) => {
                match require_stable_id("faction_id", f.as_str()) {
                    Err(e) => return Err(e),
                    Ok(()) => {},
                }
                self.ownership.insert(owned(cell_id), f);
            },
            None => {
                self.ownership.remove(cell_id);
            },
        }
        Ok(())
    }

    /// The one door hidden pressure moves through: a board event, worth its
    /// named amount, saturating at the ceiling. Returns the pressure after.
    pub fn record_heat_event(&mut self, event: HeatEvent) -> (r: u32)
        ensures
            r == final(self).cthulhu_heat,
            final(self).cthulhu_heat == if old(self).cthulhu_heat as int + event.worth() as int > MAX_HEAT as int {
                MAX_HEAT as int
            } else {
                old(self).cthulhu_heat as int + event.worth() as int
            },
            *final(self) == (ExpeditionState { cthulhu_heat: final(self).cthulhu_heat, ..*old(self) }),
    {
        let raised = self.cthulhu_heat.saturating_add(event.amount());
        self.cthulhu_heat = if raised > MAX_HEAT { MAX_HEAT } else { raised };
        self.cthulhu_heat
    }

    /// Corruption accumulates on a cell and never decays here. Refuses a cell
    /// the graph does not know. Returns the cell's corruption after.
    pub fn corrupt_cell(&mut self, cell_id: &str, amount: u8, geography: &Geography) -> (r: Result<u8, ExpeditionError>)
        ensures
            r is Ok <==> has_location(*geography, cell_id@),
            r is Err ==> *final(self) == *old(self),
            r matches Err(e) ==> (e matches ExpeditionError::UnknownLocation { location_id } && location_id@ == cell_id@),
            r matches Ok(level) ==> {
                let before = if old(self).corruption.contents().contains_key(cell_id@) {
                    old(self).corruption.contents()[cell_id@]
                } else {
                    0u8
                };
                &&& level == if before as int + amount as int > 255 { 255 } else { before as int + amount as int }
                &&& final(self).corruption.contents() == old(self).corruption.contents().insert(cell_id@, level)
            },
            *final(self) == (ExpeditionState { corruption: final(self).corruption, ..*old(self) }),
    {
        if geography.location(cell_id).is_none() {
            return Err(ExpeditionError::UnknownLocation { location_id: owned(cell_id) });
        }
        let before: u8 = match self.corruption.get(cell_id) {
            Some(v) => *v,
            None => 0,
        };
        let level = before.saturating_add(amount);
        self.corruption.insert(owned(cell_id), level);
        Ok(level)
    }

    /// Play one authored milestone for one woman. Refuses, before anything
    /// moves, a malformed character or milestone ID, a woman with no
    /// recruitment record, and a milestone already recorded for her.
    pub fn record_recruitment_milestone(&mut self, character_id: &str, milestone_id: &str) -> (r: Result<RecruitmentStage, ExpeditionError>)
        ensures
            ({
                let known = old(self).recruitment.contents().contains_key(character_id@);
                let rec = old(self).recruitment.contents()[character_id@];
                &&& r is Ok <==> is_stable_id(character_id@) && is_stable_id(milestone_id@) && known
                    && !rec.recorded_milestones@.contains(milestone_id@)
                &&& r is Err ==> *final(self) == *old(self)
                &&& !is_stable_id(character_id@) ==> (r matches Err(e) && invalid_id(e, "character_id", character_id@))
                &&& is_stable_id(character_id@) && !is_stable_id(milestone_id@) ==> (r matches Err(e) && invalid_id(
                    e,
                    "milestone_id",
                    milestone_id@,
                ))
                &&& is_stable_id(character_id@) && is_stable_id(milestone_id@) && !known ==> (r matches Err(
                    ExpeditionError::UnknownRecruit { character_id: c },
                ) && c@ == character_id@)
                &&& is_stable_id(character_id@) && is_stable_id(milestone_id@) && known
                    && rec.recorded_milestones@.contains(milestone_id@) ==> (r matches Err(
                    ExpeditionError::MilestoneAlreadyRecorded { character_id: c, milestone_id: m },
                ) && c@ == character_id@ && m@ == milestone_id@)
                &&& r matches Ok(stage) ==> {
                    let after = final(self).recruitment.contents()[character_id@];
                    &&& milestone_played(rec, after, milestone_id@, Some(stage))
                    &&& final(self).recruitment.contents() == old(self).recruitment.contents().insert(character_id@, after)
                    &&& *final(self) == (ExpeditionState { recruitment: final(self).recruitment, ..*old(self) })
                }
            }),
    {
        match require_stable_id("character_id", character_id) {
            Err(e) => return Err(e),
            Ok(()) => {},
        }
        match require_stable_id("milestone_id", milestone_id) {
            Err(e) => return Err(e),
            Ok(()) => {},
        }
        match self.recruitment.get(character_id) {
            None => return Err(ExpeditionError::UnknownRecruit { character_id: owned(character_id) }),
            Some(rec) => {
                if rec.recorded_milestones.contains(milestone_id) {
                    return Err(ExpeditionError::MilestoneAlreadyRecorded {
                        character_id: owned(character_id),
                        milestone_id: owned(milestone_id),
                    });
                }
            },
        }
        match self.recruitment.get_mut(character_id) {
            Some(rec) => {
                match rec.record_milestone(milestone_id) {
                    Some(stage) => Ok(stage),
                    None => Err(ExpeditionError::MilestoneAlreadyRecorded {
                        character_id: owned(character_id),
                        milestone_id: owned(milestone_id),
                    }),
                }
            },
            None => Err(ExpeditionError::UnknownRecruit { character_id: owned(character_id) }),
        }
    }
}

} // verus!
