//! The recovery chain, and the one door out of the simulation: a faction is
//! eliminated only when every link back is gone, and it never returns.

use vstd::prelude::*;

use crate::building::{cell_use, working, BuildingDefinitions, BuildingInstance, BuildingState, CaptureRules, CELL_CAPACITY_CELLS};
use crate::expedition::ExpeditionState;
use crate::faction::{ConceptKey, FactionState, StrategicState};
use crate::force::ForceRecord;
use crate::geography::{holder, Geography};
use crate::keyed::{keys_of, StrMap};
use crate::text::str_eq;
use crate::tick::StrategicEvent;

verus! {

/// Stock, summed over every open resource key, at or above which a
/// faction's stores are a way back. Provisional: "anything at all".
pub const RESOURCE_RESERVE_FLOOR: u32 = 1;

/// Strength at or above which a body of a faction's own is a way back.
pub const RECOVERY_FORCE_STRENGTH_FLOOR: u32 = 1;

/// Trust at or above which a living neighbour is a refuge.
pub const ALLY_REFUGE_TRUST_FLOOR: i16 = 1;

/// One way back from the brink, in the order the design lists them.
#[derive(Clone, Copy, Debug, PartialEq, Eq, PartialOrd, Ord, Structural)]
pub enum RecoveryLink {
    OperationalCoreBuilding,
    RemainingPopulation,
    WorkerProductionOrRecruitment,
    ResourceReserve,
    ControlledSettlement,
    MobileRecoveryForce,
    AlliedRefuge,
    ValidConstructionSite,
    AuthoredRecoveryEvent,
    NeedsDecision,
}

impl RecoveryLink {
    pub const ALL: [RecoveryLink; 10] = [
        RecoveryLink::OperationalCoreBuilding,
        RecoveryLink::RemainingPopulation,
        RecoveryLink::WorkerProductionOrRecruitment,
        RecoveryLink::ResourceReserve,
        RecoveryLink::ControlledSettlement,
        RecoveryLink::MobileRecoveryForce,
        RecoveryLink::AlliedRefuge,
        RecoveryLink::ValidConstructionSite,
        RecoveryLink::AuthoredRecoveryEvent,
        RecoveryLink::NeedsDecision,
    ];
}

/// A building of this faction standing well enough to work.
pub open spec fn working_of(b: BuildingInstance, faction_id: Seq<char>) -> bool {
    b.faction_id@ == faction_id && working(b.state)
}

/// A working building of this faction that makes something or supports
/// recruitment; one whose record the registry lacks counts.
pub open spec fn producing_of(b: BuildingInstance, faction_id: Seq<char>, definitions: BuildingDefinitions) -> bool {
    working_of(b, faction_id) && (!definitions.records().contains_key(b.def_id@)
        || definitions.records()[b.def_id@].production@.len() > 0
        || definitions.records()[b.def_id@].recruitment_support@ != Set::<Seq<char>>::empty())
}

/// Whether one link back holds for this faction, read off the parts of the
/// board a link can see: the buildings, the faction's own stores and
/// relationships, every other faction, the forces, the save's ownership.
pub open spec fn link_holds_on(
    bs: Seq<(Seq<char>, BuildingInstance)>,
    resources: Seq<(Seq<char>, u32)>,
    relationships: Seq<(Seq<char>, crate::faction::Relationship)>,
    others: Map<Seq<char>, FactionState>,
    forces: Seq<(Seq<char>, ForceRecord)>,
    ownership: Map<Seq<char>, String>,
    faction_id: Seq<char>,
    geography: Geography,
    definitions: BuildingDefinitions,
    link: RecoveryLink,
) -> bool {
    match link {
        RecoveryLink::OperationalCoreBuilding => exists|i: int| 0 <= i < bs.len() && working_of(#[trigger] bs[i].1, faction_id),
        RecoveryLink::RemainingPopulation => false,
        RecoveryLink::WorkerProductionOrRecruitment => exists|i: int|
            0 <= i < bs.len() && producing_of(#[trigger] bs[i].1, faction_id, definitions),
        RecoveryLink::ResourceReserve => exists|i: int| 0 <= i < resources.len() && #[trigger] resources[i].1 > 0,
        RecoveryLink::ControlledSettlement => exists|i: int| #[trigger] held_on(ownership, geography, faction_id, i),
        RecoveryLink::MobileRecoveryForce => exists|i: int|
            0 <= i < forces.len() && (#[trigger] forces[i].1).faction_id@ == faction_id && forces[i].1.strength
                >= RECOVERY_FORCE_STRENGTH_FLOOR,
        RecoveryLink::AlliedRefuge => exists|i: int|
            0 <= i < relationships.len() && (#[trigger] relationships[i]).0 != faction_id && relationships[i].1.trust
                >= ALLY_REFUGE_TRUST_FLOOR && others.contains_key(relationships[i].0) && !others[relationships[i].0].eliminated,
        RecoveryLink::ValidConstructionSite => exists|i: int|
            #[trigger] held_on(ownership, geography, faction_id, i) && cell_use(bs, definitions.records(), geography.locations@[i].id@)
                < CELL_CAPACITY_CELLS,
        RecoveryLink::AuthoredRecoveryEvent => false,
        RecoveryLink::NeedsDecision => faction_id == ConceptKey::Cthulhu.id(),
    }
}

/// A cell of the graph that, by the save's ownership over the authored one,
/// this faction holds.
pub open spec fn held_on(ownership: Map<Seq<char>, String>, geography: Geography, faction_id: Seq<char>, i: int) -> bool {
    0 <= i < geography.locations@.len() && holder(geography, ownership, geography.locations@[i].id@) == Some(faction_id)
}

/// Whether one link back holds for this faction on this board.
pub open spec fn link_holds(s: ExpeditionState, faction_id: Seq<char>, geography: Geography, definitions: BuildingDefinitions, link: RecoveryLink) -> bool {
    let f = s.factions.contents()[faction_id];
    link_holds_on(
        s.buildings@,
        f.resources@,
        f.relationships@,
        s.factions.contents().remove(faction_id),
        s.forces@,
        s.ownership.contents(),
        faction_id,
        geography,
        definitions,
        link,
    )
}

/// Every link, in the design's order.
pub open spec fn all_links() -> Seq<RecoveryLink> {
    seq![
        RecoveryLink::OperationalCoreBuilding,
        RecoveryLink::RemainingPopulation,
        RecoveryLink::WorkerProductionOrRecruitment,
        RecoveryLink::ResourceReserve,
        RecoveryLink::ControlledSettlement,
        RecoveryLink::MobileRecoveryForce,
        RecoveryLink::AlliedRefuge,
        RecoveryLink::ValidConstructionSite,
        RecoveryLink::AuthoredRecoveryEvent,
        RecoveryLink::NeedsDecision,
    ]
}

/// The links among the first `n` of the list that hold, in order.
pub open spec fn links_upto(s: ExpeditionState, faction_id: Seq<char>, geography: Geography, definitions: BuildingDefinitions, n: nat) -> Seq<RecoveryLink>
    decreases n,
{
    if n == 0 {
        Seq::empty()
    } else {
        let rest = links_upto(s, faction_id, geography, definitions, (n - 1) as nat);
        if link_holds(s, faction_id, geography, definitions, all_links()[n - 1]) {
            rest.push(all_links()[n - 1])
        } else {
            rest
        }
    }
}

/// The ways back a faction still has, in the design's order; none for a
/// faction the save does not carry.
pub open spec fn chain_of(s: ExpeditionState, faction_id: Seq<char>, geography: Geography, definitions: BuildingDefinitions) -> Seq<RecoveryLink> {
    if s.factions.contents().contains_key(faction_id) {
        links_upto(s, faction_id, geography, definitions, 10)
    } else {
        Seq::empty()
    }
}

fn any_working(s: &ExpeditionState, faction_id: &str) -> (r: bool)
    ensures
        r == exists|i: int| 0 <= i < s.buildings@.len() && working_of(#[trigger] s.buildings@[i].1, faction_id@),
{
    let mut i: usize = 0;
    while i < s.buildings.len()
        invariant
            i <= s.buildings@.len(),
            forall|j: int| 0 <= j < i ==> !working_of(#[trigger] s.buildings@[j].1, faction_id@),
        decreases s.buildings@.len() - i,
    {
        let b = s.buildings.value_at(i);
        if str_eq(b.faction_id.as_str(), faction_id) && b.is_working() {
            return true;
        }
        i = i + 1;
    }
    false
}

fn any_producing(s: &ExpeditionState, faction_id: &str, definitions: &BuildingDefinitions) -> (r: bool)
    ensures
        r == exists|i: int| 0 <= i < s.buildings@.len() && producing_of(#[trigger] s.buildings@[i].1, faction_id@, *definitions),
{
    let mut i: usize = 0;
    while i < s.buildings.len()
        invariant
            i <= s.buildings@.len(),
            forall|j: int| 0 <= j < i ==> !producing_of(#[trigger] s.buildings@[j].1, faction_id@, *definitions),
        decreases s.buildings@.len() - i,
    {
        let b = s.buildings.value_at(i);
        if str_eq(b.faction_id.as_str(), faction_id) && b.is_working() {
            let makes = match definitions.get(b.def_id.as_str()) {
                Some(d) => d.production.len() > 0 || !d.recruitment_support.is_empty(),
                None => true,
            };
            if makes {
                return true;
            }
        }
        i = i + 1;
    }
    false
}

/// Whether the stores, summed with saturation, reach the reserve floor.
fn reserve_holds(resources: &StrMap<u32>) -> (r: bool)
    ensures
        r == exists|i: int| 0 <= i < resources@.len() && #[trigger] resources@[i].1 > 0,
{
    let mut total: u32 = 0;
    let mut i: usize = 0;
    while i < resources.len()
        invariant
            i <= resources@.len(),
            (total == 0) == forall|j: int| 0 <= j < i ==> #[trigger] resources@[j].1 == 0,
        decreases resources@.len() - i,
    {
        total = total.saturating_add(*resources.value_at(i));
        i = i + 1;
    }
    total >= RESOURCE_RESERVE_FLOOR
}

fn any_strong_force(s: &ExpeditionState, faction_id: &str) -> (r: bool)
    ensures
        r == exists|i: int|
            0 <= i < s.forces@.len() && (#[trigger] s.forces@[i].1).faction_id@ == faction_id@
                && s.forces@[i].1.strength >= RECOVERY_FORCE_STRENGTH_FLOOR,
{
    let mut i: usize = 0;
    while i < s.forces.len()
        invariant
            i <= s.forces@.len(),
            forall|j: int|
                0 <= j < i ==> !((#[trigger] s.forces@[j].1).faction_id@ == faction_id@ && s.forces@[j].1.strength
                    >= RECOVERY_FORCE_STRENGTH_FLOOR),
        decreases s.forces@.len() - i,
    {
        let f = s.forces.value_at(i);
        if str_eq(f.faction_id.as_str(), faction_id) && f.strength >= RECOVERY_FORCE_STRENGTH_FLOOR {
            return true;
        }
        i = i + 1;
    }
    false
}

fn any_refuge(s: &ExpeditionState, faction: &FactionState, faction_id: &str) -> (r: bool)
    ensures
        r == exists|i: int|
            0 <= i < faction.relationships@.len() && (#[trigger] faction.relationships@[i]).0 != faction_id@
                && faction.relationships@[i].1.trust >= ALLY_REFUGE_TRUST_FLOOR
                && s.factions.contents().contains_key(faction.relationships@[i].0)
                && !s.factions.contents()[faction.relationships@[i].0].eliminated,
{
    let mut i: usize = 0;
    while i < faction.relationships.len()
        invariant
            i <= faction.relationships@.len(),
            forall|j: int|
                0 <= j < i ==> !((#[trigger] faction.relationships@[j]).0 != faction_id@
                    && faction.relationships@[j].1.trust >= ALLY_REFUGE_TRUST_FLOOR
                    && s.factions.contents().contains_key(faction.relationships@[j].0)
                    && !s.factions.contents()[faction.relationships@[j].0].eliminated),
        decreases faction.relationships@.len() - i,
    {
        let other = faction.relationships.key_at(i);
        let trust = faction.relationships.value_at(i).trust;
        if !str_eq(other.as_str(), faction_id) && trust >= ALLY_REFUGE_TRUST_FLOOR {
            match s.factions.get(other.as_str()) {
                Some(o) => {
                    if !o.eliminated {
                        return true;
                    }
                },
                None => {},
            }
        }
        i = i + 1;
    }
    false
}

/// Whether some held cell still has envelope room (`room`) or any cell is
/// held at all.
fn held_cells(s: &ExpeditionState, faction_id: &str, geography: &Geography, definitions: &BuildingDefinitions) -> (r: (bool, bool))
    ensures
        r.0 == exists|i: int| #[trigger] held_on(s.ownership.contents(), *geography, faction_id@, i),
        r.1 == exists|i: int|
            #[trigger] held_on(s.ownership.contents(), *geography, faction_id@, i) && cell_use(s.buildings@, definitions.records(), geography.locations@[i].id@)
                < CELL_CAPACITY_CELLS,
{
    let cells = geography.all_location_ids();
    let mut any = false;
    let mut room = false;
    let mut i: usize = 0;
    while i < cells.len()
        invariant
            i <= cells@.len(),
            cells@.len() == geography.locations@.len(),
            forall|j: int| 0 <= j < cells@.len() ==> #[trigger] cells@[j]@ == geography.locations@[j].id@,
            any == exists|j: int| 0 <= j < i && #[trigger] held_on(s.ownership.contents(), *geography, faction_id@, j),
            room == exists|j: int|
                0 <= j < i && #[trigger] held_on(s.ownership.contents(), *geography, faction_id@, j) && cell_use(s.buildings@, definitions.records(), geography.locations@[j].id@)
                    < CELL_CAPACITY_CELLS,
        decreases cells@.len() - i,
    {
        let held = match geography.held_by(cells[i].as_str(), &s.ownership) {
            Some(h) => str_eq(h.as_str(), faction_id),
            None => false,
        };
        if held {
            proof {
                assert(held_on(s.ownership.contents(), *geography, faction_id@, i as int));
            }
            any = true;
            if s.envelope_cells_used(cells[i].as_str(), definitions) < CELL_CAPACITY_CELLS {
                room = true;
            }
        } else {
            proof {
                assert(!held_on(s.ownership.contents(), *geography, faction_id@, i as int));
            }
        }
        i = i + 1;
    }
    (any, room)
}

/// The ways back `faction_id` still has, in the design's order. Pure: it
/// reads the board and answers. Population and authored recovery events are
/// never reported, because nothing counts the one and no content authors the
/// other; the dark faction's chain always carries the standing refusal to
/// eliminate it while its rules are undecided.
#[verifier::rlimit(40)]
pub fn recovery_chain(state: &ExpeditionState, faction_id: &str, geography: &Geography, definitions: &BuildingDefinitions) -> (r: Vec<RecoveryLink>)
    ensures
        r@ == chain_of(*state, faction_id@, *geography, *definitions),
{
    let faction = match state.factions.get(faction_id) {
        Some(f) => f,
        None => {
            return Vec::new();
        },
    };
    let ghost g = *geography;
    let ghost d = *definitions;
    let ghost fid = faction_id@;
    let mut chain: Vec<RecoveryLink> = Vec::new();
    proof {
        reveal_with_fuel(links_upto, 11);
    }
    let working = any_working(state, faction_id);
    if working {
        chain.push(RecoveryLink::OperationalCoreBuilding);
    }
    assert(chain@ == links_upto(*state, fid, g, d, 2));
    if any_producing(state, faction_id, definitions) {
        chain.push(RecoveryLink::WorkerProductionOrRecruitment);
    }
    assert(chain@ == links_upto(*state, fid, g, d, 3));
    if reserve_holds(&faction.resources) {
        chain.push(RecoveryLink::ResourceReserve);
    }
    assert(chain@ == links_upto(*state, fid, g, d, 4));
    let (held, room) = held_cells(state, faction_id, geography, definitions);
    if held {
        chain.push(RecoveryLink::ControlledSettlement);
    }
    assert(chain@ == links_upto(*state, fid, g, d, 5));
    if any_strong_force(state, faction_id) {
        chain.push(RecoveryLink::MobileRecoveryForce);
    }
    assert(chain@ == links_upto(*state, fid, g, d, 6));
    if any_refuge(state, faction, faction_id) {
        chain.push(RecoveryLink::AlliedRefuge);
    }
    assert(chain@ == links_upto(*state, fid, g, d, 7));
    if room {
        chain.push(RecoveryLink::ValidConstructionSite);
    }
    assert(chain@ == links_upto(*state, fid, g, d, 9));
    let cthulhu = ConceptKey::Cthulhu.faction_id();
    if str_eq(faction_id, cthulhu.as_str()) {
        chain.push(RecoveryLink::NeedsDecision);
    }
    chain
}

/// A building of the eliminated faction that its own record brings down:
/// its record says it is destroyed rather than captured. A building whose
/// record the registry lacks is read as standing and is not ruined; a ruin
/// is left as it is.
pub open spec fn comes_down(b: BuildingInstance, faction_id: Seq<char>, definitions: BuildingDefinitions) -> bool {
    &&& b.faction_id@ == faction_id
    &&& b.state != BuildingState::Ruined
    &&& definitions.records().contains_key(b.def_id@)
    &&& definitions.records()[b.def_id@].capture_rules == CaptureRules::DestroyOnly
}

/// A building as a ruin.
pub open spec fn ruined(b: BuildingInstance) -> BuildingInstance {
    BuildingInstance { state: BuildingState::Ruined, hp: 0, construction_hours_remaining: 0, ..b }
}

/// The buildings once the eliminated faction's have each gone the way their
/// records say.
pub open spec fn buildings_after_elimination(
    before: Map<Seq<char>, BuildingInstance>,
    faction_id: Seq<char>,
    definitions: BuildingDefinitions,
) -> Map<Seq<char>, BuildingInstance> {
    Map::new(
        |k: Seq<char>| before.contains_key(k),
        |k: Seq<char>| if comes_down(before[k], faction_id, definitions) { ruined(before[k]) } else { before[k] },
    )
}

/// The save's ownership once every override naming the faction on a cell of
/// the graph is dropped.
pub open spec fn released(before: Map<Seq<char>, String>, geography: Geography, faction_id: Seq<char>) -> Map<Seq<char>, String> {
    Map::new(
        |c: Seq<char>| before.contains_key(c) && !(crate::geography::has_location(geography, c) && before[c]@ == faction_id),
        |c: Seq<char>| before[c],
    )
}

/// A force as it stands once its faction is gone: halted where it is, whole.
pub open spec fn halted_as(before: ForceRecord, after: ForceRecord, faction_id: Seq<char>) -> bool {
    if before.faction_id@ == faction_id {
        &&& after.route@.len() == 0
        &&& after == (ForceRecord { route: after.route, destination_cell_id: None, progress_minutes: 0, ..before })
    } else {
        after == before
    }
}

/// What eliminating a faction does to the board: the faction is flagged,
/// its goals dropped and its state desperate; its buildings go the way their
/// records say; its overrides on the ground are released; its forces halt
/// whole where they stand. Nothing else changes but its saved chain.
pub open spec fn eliminated_board(
    before: ExpeditionState,
    after: ExpeditionState,
    faction_id: Seq<char>,
    geography: Geography,
    definitions: BuildingDefinitions,
) -> bool {
    let f = before.factions.contents()[faction_id];
    let g = after.factions.contents()[faction_id];
    &&& after.factions.contents() == before.factions.contents().insert(faction_id, g)
    &&& keys_of(after.factions@) == keys_of(before.factions@)
    &&& g.eliminated
    &&& g.current_goals@.len() == 0
    &&& g.strategic_state == StrategicState::Desperate
    &&& g == (FactionState {
        eliminated: true,
        current_goals: g.current_goals,
        strategic_state: StrategicState::Desperate,
        recovery_links_held: g.recovery_links_held,
        ..f
    })
    &&& after.buildings.contents() == buildings_after_elimination(before.buildings.contents(), faction_id, definitions)
    &&& keys_of(after.buildings@) == keys_of(before.buildings@)
    &&& after.ownership.contents() == released(before.ownership.contents(), geography, faction_id)
    &&& after.forces@.len() == before.forces@.len()
    &&& forall|i: int|
        0 <= i < before.forces@.len() ==> (#[trigger] after.forces@[i]).0 == before.forces@[i].0 && halted_as(
            before.forces@[i].1,
            after.forces@[i].1,
            faction_id,
        )
    &&& after == (ExpeditionState {
        factions: after.factions,
        buildings: after.buildings,
        ownership: after.ownership,
        forces: after.forces,
        ..before
    })
}

impl ExpeditionState {
    /// Take a faction off the board, whatever its chain says. A faction the
    /// save does not carry, or one already eliminated, is left alone and
    /// nothing is reported: there is no second elimination and no revival.
    /// Otherwise the board changes as `eliminated_board` says, the faction's
    /// saved chain becomes what the new board gives it, and its elimination
    /// is reported.
    #[verifier::rlimit(60)]
    pub fn eliminate_faction(&mut self, faction_id: &str, geography: &Geography, definitions: &BuildingDefinitions) -> (r: Vec<StrategicEvent>)
        ensures
            !old(self).factions.contents().contains_key(faction_id@) || old(self).factions.contents()[faction_id@].eliminated ==> (
            r@.len() == 0 && *final(self) == *old(self)),
            old(self).factions.contents().contains_key(faction_id@) && !old(self).factions.contents()[faction_id@].eliminated ==> {
                &&& eliminated_board(*old(self), *final(self), faction_id@, *geography, *definitions)
                &&& final(self).factions.contents()[faction_id@].recovery_links_held@ == chain_of(*final(self), faction_id@, *geography, *definitions)
                &&& r@.len() == 1
                &&& r@[0] matches StrategicEvent::FactionEliminated { faction_id: f, day }
                &&& r@[0]->FactionEliminated_faction_id@ == faction_id@
                &&& r@[0]->FactionEliminated_day == old(self).campaign_day
            },
    {
        let idx = match self.factions.find(faction_id) {
            Some(i) => i,
            None => {
                proof {
                    crate::keyed::lemma_as_map_dom(self.factions@, faction_id@);
                }
                return Vec::new();
            },
        };
        proof {
            crate::keyed::lemma_as_map_value(self.factions@, faction_id@, idx as int);
        }
        if self.factions.value_at(idx).eliminated {
            return Vec::new();
        }
        let ghost start = *self;
        let ghost fs = self.factions@;
        {
            let faction = self.factions.value_at_mut(idx);
            faction.eliminated = true;
            faction.current_goals.clear();
            faction.strategic_state = StrategicState::Desperate;
        }
        proof {
            crate::keyed::lemma_update_first(fs, idx as int, faction_id@, self.factions@[idx as int].1);
            assert(keys_of(self.factions@) =~= keys_of(fs));
        }
        let ghost flagged = *self;
        // Buildings, each by its own record.
        let ghost keys = keys_of(self.buildings@);
        let mut i: usize = 0;
        while i < self.buildings.len()
            invariant
                i <= keys.len(),
                keys == keys_of(start.buildings@),
                keys_of(self.buildings@) == keys,
                self.buildings.contents().dom() == start.buildings.contents().dom(),
                forall|k: Seq<char>|
                    #![trigger self.buildings.contents()[k]]
                    start.buildings.contents().contains_key(k) ==> self.buildings.contents()[k] == if (exists|p: int|
                        0 <= p < i && #[trigger] keys[p] == k) && comes_down(start.buildings.contents()[k], faction_id@, *definitions) {
                        ruined(start.buildings.contents()[k])
                    } else {
                        start.buildings.contents()[k]
                    },
                *self == (ExpeditionState { buildings: self.buildings, ..flagged }),
            decreases keys.len() - i,
        {
            let key = self.buildings.key_at(i).clone();
            proof {
                assert(keys[i as int] == key@);
                crate::keyed::lemma_as_map_dom(self.buildings@, key@);
            }
            let ruin = match self.buildings.get(key.as_str()) {
                Some(b) => str_eq(b.faction_id.as_str(), faction_id) && match definitions.get(b.def_id.as_str()) {
                    Some(d) => d.capture_rules == CaptureRules::DestroyOnly,
                    None => false,
                },
                None => false,
            };
            let ghost pre = *self;
            if ruin {
                let _ = self.ruin_building(key.as_str());
            }
            proof {
                assert forall|k: Seq<char>| #[trigger] start.buildings.contents().contains_key(k) implies self.buildings.contents()[k] == if (exists|p: int|
                    0 <= p < i + 1 && #[trigger] keys[p] == k) && comes_down(start.buildings.contents()[k], faction_id@, *definitions) {
                    ruined(start.buildings.contents()[k])
                } else {
                    start.buildings.contents()[k]
                } by {
                    let now = pre.buildings.contents()[k];
                    if k == key@ {
                        assert(keys[i as int] == k);
                    } else {
                        if exists|p: int| 0 <= p < i + 1 && #[trigger] keys[p] == k {
                            let p = choose|p: int| 0 <= p < i + 1 && #[trigger] keys[p] == k;
                            assert(p < i);
                        }
                    }
                }
                assert(self.buildings.contents().dom() =~= start.buildings.contents().dom());
            }
            i = i + 1;
        }
        proof {
            assert(self.buildings.contents() =~= buildings_after_elimination(start.buildings.contents(), faction_id@, *definitions)) by {
                assert forall|k: Seq<char>| #[trigger] start.buildings.contents().contains_key(k) implies exists|p: int|
                    0 <= p < i && #[trigger] keys[p] == k by {
                    crate::keyed::lemma_as_map_dom(start.buildings@, k);
                    let p = choose|p: int| 0 <= p < start.buildings@.len() && #[trigger] start.buildings@[p].0 == k;
                    assert(keys[p] == k);
                }
            }
        }
        let ghost ruined_state = *self;
        // Territory: every override naming this faction is dropped.
        let cells = geography.all_location_ids();
        let mut c: usize = 0;
        while c < cells.len()
            invariant
                c <= cells@.len(),
                cells@.len() == geography.locations@.len(),
                forall|j: int| 0 <= j < cells@.len() ==> #[trigger] cells@[j]@ == geography.locations@[j].id@,
                self.ownership.contents() == Map::new(
                    |x: Seq<char>| start.ownership.contents().contains_key(x) && !((exists|j: int| 0 <= j < c && #[trigger] cells@[j]@ == x)
                        && start.ownership.contents()[x]@ == faction_id@),
                    |x: Seq<char>| start.ownership.contents()[x],
                ),
                *self == (ExpeditionState { ownership: self.ownership, ..ruined_state }),
            decreases cells@.len() - c,
        {
            let held = match geography.held_by(cells[c].as_str(), &self.ownership) {
                Some(h) => str_eq(h.as_str(), faction_id),
                None => false,
            };
            let ghost pre = self.ownership.contents();
            if held {
                proof {
                    assert(crate::geography::has_location(*geography, cells@[c as int]@)) by {
                        assert(geography.locations@[c as int].id@ == cells@[c as int]@);
                    }
                }
                let _ = self.set_control(cells[c].as_str(), None, geography);
            }
            proof {
                let cell = cells@[c as int]@;
                let target = Map::new(
                    |x: Seq<char>| start.ownership.contents().contains_key(x) && !((exists|j: int| 0 <= j < c + 1 && #[trigger] cells@[j]@ == x)
                        && start.ownership.contents()[x]@ == faction_id@),
                    |x: Seq<char>| start.ownership.contents()[x],
                );
                assert forall|x: Seq<char>| #[trigger] target.contains_key(x) == self.ownership.contents().contains_key(x) by {
                    if x == cell {
                        assert(cells@[c as int]@ == x);
                    } else {
                        if exists|j: int| 0 <= j < c + 1 && #[trigger] cells@[j]@ == x {
                            let j = choose|j: int| 0 <= j < c + 1 && #[trigger] cells@[j]@ == x;
                            assert(j < c);
                        }
                    }
                }
                assert(self.ownership.contents() =~= target);
            }
            c = c + 1;
        }
        proof {
            assert(self.ownership.contents() =~= released(start.ownership.contents(), *geography, faction_id@)) by {
                assert forall|x: Seq<char>| (exists|j: int| 0 <= j < c && #[trigger] cells@[j]@ == x) == crate::geography::has_location(*geography, x) by {
                    if crate::geography::has_location(*geography, x) {
                        let j = choose|j: int| 0 <= j < geography.locations@.len() && #[trigger] geography.locations@[j].id@ == x;
                        assert(cells@[j]@ == x);
                    }
                    if exists|j: int| 0 <= j < c && #[trigger] cells@[j]@ == x {
                        let j = choose|j: int| 0 <= j < c && #[trigger] cells@[j]@ == x;
                        assert(geography.locations@[j].id@ == x);
                    }
                }
            }
        }
        let ghost released_state = *self;
        // Forces halt where they stand, whole.
        let mut f: usize = 0;
        while f < self.forces.len()
            invariant
                f <= start.forces@.len(),
                self.forces@.len() == start.forces@.len(),
                forall|j: int|
                    0 <= j < start.forces@.len() ==> (#[trigger] self.forces@[j]).0 == start.forces@[j].0 && if j < f {
                        halted_as(start.forces@[j].1, self.forces@[j].1, faction_id@)
                    } else {
                        self.forces@[j].1 == start.forces@[j].1
                    },
                *self == (ExpeditionState { forces: self.forces, ..released_state }),
            decreases start.forces@.len() - f,
        {
            if str_eq(self.forces.value_at(f).faction_id.as_str(), faction_id) {
                let force = self.forces.value_at_mut(f);
                force.route.clear();
                force.destination_cell_id = None;
                force.progress_minutes = 0;
            }
            f = f + 1;
        }
        proof {
            assert(keys_of(self.forces@) =~= keys_of(start.forces@)) by {
                assert forall|j: int| 0 <= j < start.forces@.len() implies keys_of(self.forces@)[j] == keys_of(start.forces@)[j] by {
                    assert(self.forces@[j].0 == start.forces@[j].0);
                }
            }
        }
        let chain = recovery_chain(self, faction_id, geography, definitions);
        let ghost halted_state = *self;
        let ghost fs2 = self.factions@;
        proof {
            crate::keyed::lemma_update_first(fs, idx as int, faction_id@, flagged.factions@[idx as int].1);
            assert(crate::keyed::first_at(fs2, faction_id@, idx as int));
        }
        {
            let faction = self.factions.value_at_mut(idx);
            faction.recovery_links_held = chain;
        }
        proof {
            crate::keyed::lemma_update_first(fs2, idx as int, faction_id@, self.factions@[idx as int].1);
            assert(keys_of(self.factions@) =~= keys_of(fs2));
            lemma_chain_ignores_saved_reading(halted_state, *self, faction_id@, *geography, *definitions);
            assert(self.factions.contents() =~= start.factions.contents().insert(faction_id@, self.factions.contents()[faction_id@]));
        }
        let day = self.campaign_day;
        let mut events: Vec<StrategicEvent> = Vec::new();
        events.push(StrategicEvent::FactionEliminated { faction_id: crate::text::owned(faction_id), day });
        events
    }
}

/// The chain reads nothing of the faction's own saved reading, its goals,
/// its state or its flags: rewriting those leaves the chain as it was.
pub proof fn lemma_chain_ignores_saved_reading(
    before: ExpeditionState,
    after: ExpeditionState,
    faction_id: Seq<char>,
    geography: Geography,
    definitions: BuildingDefinitions,
)
    requires
        before.factions.contents().contains_key(faction_id),
        after.factions.contents() == before.factions.contents().insert(faction_id, after.factions.contents()[faction_id]),
        after.factions.contents()[faction_id].resources == before.factions.contents()[faction_id].resources,
        after.factions.contents()[faction_id].relationships == before.factions.contents()[faction_id].relationships,
        after == (ExpeditionState { factions: after.factions, ..before }),
    ensures
        chain_of(after, faction_id, geography, definitions) == chain_of(before, faction_id, geography, definitions),
{
    assert(after.factions.contents().dom() =~= before.factions.contents().dom());
    assert(after.factions.contents().remove(faction_id) =~= before.factions.contents().remove(faction_id));
    lemma_links_upto_same(after, before, faction_id, geography, definitions, 10);
}

proof fn lemma_links_upto_same(
    a: ExpeditionState,
    b: ExpeditionState,
    faction_id: Seq<char>,
    geography: Geography,
    definitions: BuildingDefinitions,
    n: nat,
)
    requires
        forall|link: RecoveryLink| link_holds(a, faction_id, geography, definitions, link) == link_holds(b, faction_id, geography, definitions, link),
    ensures
        links_upto(a, faction_id, geography, definitions, n) == links_upto(b, faction_id, geography, definitions, n),
    decreases n,
{
    if n > 0 {
        lemma_links_upto_same(a, b, faction_id, geography, definitions, (n - 1) as nat);
    }
}

/// The links of a saved reading that the new chain no longer has, in the
/// reading's order.
pub open spec fn lost_links(held: Seq<RecoveryLink>, chain: Seq<RecoveryLink>) -> Seq<RecoveryLink>
    decreases held.len(),
{
    if held.len() == 0 {
        Seq::empty()
    } else {
        let rest = lost_links(held.drop_last(), chain);
        if chain.contains(held.last()) {
            rest
        } else {
            rest.push(held.last())
        }
    }
}

/// Whether asking a faction about its chain on this board ends it: the
/// chain is empty, it has held something at some time, and it is not gone
/// already.
pub open spec fn exhausted(f: FactionState, chain: Seq<RecoveryLink>) -> bool {
    chain.len() == 0 && f.has_ever_held && !f.eliminated
}

fn contains_link(chain: &Vec<RecoveryLink>, link: RecoveryLink) -> (r: bool)
    ensures
        r == chain@.contains(link),
{
    let mut i: usize = 0;
    while i < chain.len()
        invariant
            i <= chain@.len(),
            forall|j: int| 0 <= j < i ==> chain@[j] != link,
        decreases chain@.len() - i,
    {
        if chain[i] == link {
            return true;
        }
        i = i + 1;
    }
    false
}

/// What asking whether a faction has run out of ways back does, from the
/// board `before` to the board `after`, reporting `events`.
pub open spec fn exhaustion_checked(
    before: ExpeditionState,
    after: ExpeditionState,
    faction_id: Seq<char>,
    geography: Geography,
    defs: BuildingDefinitions,
    events: Seq<StrategicEvent>,
) -> bool {
    &&& (!before.factions.contents().contains_key(faction_id) ==> events.len() == 0 && after == before)
    &&& (before.factions.contents().contains_key(faction_id) ==> {
        let f = before.factions.contents()[faction_id];
        let g = after.factions.contents()[faction_id];
        let chain = chain_of(before, faction_id, geography, defs);
        let lost = lost_links(f.recovery_links_held@, chain);
        let read = FactionState {
            recovery_links_held: g.recovery_links_held,
            has_ever_held: f.has_ever_held || chain.len() > 0,
            ..f
        };
        let mid = ExpeditionState { factions: after.factions, ..before };
        &&& events.len() == lost.len() + if exhausted(read, chain) { 1int } else { 0int }
        &&& forall|i: int|
            0 <= i < lost.len() ==> (#[trigger] events[i] matches StrategicEvent::RecoveryLinkLost { faction_id: x, link } && x@
                == faction_id && link == lost[i])
        &&& g.recovery_links_held@ == chain_of(after, faction_id, geography, defs)
        &&& g.has_ever_held == (f.has_ever_held || chain.len() > 0)
        &&& g.eliminated == (f.eliminated || exhausted(read, chain))
        &&& (exhausted(read, chain) ==> (events[lost.len() as int] is FactionEliminated && exists|raised: ExpeditionState|
            raised.factions.contents() == before.factions.contents().insert(faction_id, raised.factions.contents()[faction_id])
                && raised.factions.contents()[faction_id] == (FactionState {
                recovery_links_held: raised.factions.contents()[faction_id].recovery_links_held,
                has_ever_held: true,
                ..f
            }) && raised == (ExpeditionState { factions: raised.factions, ..before }) && eliminated_board(
                raised,
                after,
                faction_id,
                geography,
                defs,
            )))
        &&& (!exhausted(read, chain) ==> {
            &&& after.factions.contents() == before.factions.contents().insert(faction_id, g)
            &&& keys_of(after.factions@) == keys_of(before.factions@)
            &&& g == read
            &&& after == mid
        })
    })
}

/// What asking every faction, in order, whether it has run out of ways back
/// does to the board `start`, leaving `end` and reporting `events`.
pub open spec fn exhaustion_swept(start: ExpeditionState, end: ExpeditionState, geography: Geography, definitions: BuildingDefinitions, events: Seq<StrategicEvent>) -> bool {
    &&& (end.factions.contents().dom() == start.factions.contents().dom())
    &&& (forall|k: Seq<char>|
        #![trigger end.factions.contents()[k]]
        start.factions.contents().contains_key(k) ==> {
            &&& start.factions.contents()[k].eliminated ==> end.factions.contents()[k].eliminated
            &&& start.factions.contents()[k].has_ever_held ==> end.factions.contents()[k].has_ever_held
            &&& end.factions.contents()[k].eliminated ==> (start.factions.contents()[k].eliminated
                || end.factions.contents()[k].has_ever_held)
        })
    &&& (forall|i: int| 0 <= i < events.len() ==> (#[trigger] events[i] is RecoveryLinkLost || events[i] is FactionEliminated))
    &&& (end == (ExpeditionState {
        factions: end.factions,
        buildings: end.buildings,
        ownership: end.ownership,
        forces: end.forces,
        ..start
    }))
    &&& (exists|states: Seq<ExpeditionState>, runs: Seq<Seq<StrategicEvent>>|
        {
            &&& states.len() == start.factions@.len() + 1
            &&& runs.len() == start.factions@.len()
            &&& states[0] == start
            &&& states.last() == end
            &&& events == runs.flatten()
            &&& forall|i: int|
                0 <= i < runs.len() ==> exhaustion_checked(
                    states[i],
                    states[i + 1],
                    keys_of(start.factions@)[i],
                    geography,
                    definitions,
                    #[trigger] runs[i],
                )
        })
}

impl ExpeditionState {
    /// Ask whether a faction has run out of ways back, and remove it if it
    /// has: the chain is read; every link the saved reading had and the chain
    /// lacks is reported as lost, in the reading's order; the reading becomes
    /// the chain and "has ever held" is raised if the chain is not empty; and
    /// a faction with an empty chain that has held something and is not gone
    /// already is eliminated. A faction that never held anything is never
    /// eliminated by having nothing. A faction the save does not carry is left
    /// alone.
    #[verifier::rlimit(40)]
    pub fn eliminate_if_exhausted(&mut self, faction_id: &str, geography: &Geography, definitions: &BuildingDefinitions) -> (r: Vec<StrategicEvent>)
        ensures
            exhaustion_checked(*old(self), *final(self), faction_id@, *geography, *definitions, r@),
    {
        let idx = match self.factions.find(faction_id) {
            Some(i) => i,
            None => {
                proof {
                    crate::keyed::lemma_as_map_dom(self.factions@, faction_id@);
                }
                return Vec::new();
            },
        };
        proof {
            crate::keyed::lemma_as_map_value(self.factions@, faction_id@, idx as int);
            crate::keyed::lemma_as_map_dom(self.factions@, faction_id@);
        }
        let ghost start = *self;
        let chain = recovery_chain(self, faction_id, geography, definitions);
        let empty = chain.len() == 0;
        let mut events: Vec<StrategicEvent> = Vec::new();
        let mut lost_count: usize = 0;
        {
            let held = &self.factions.value_at(idx).recovery_links_held;
            let mut i: usize = 0;
            proof {
                assert(held@.take(0) =~= Seq::<RecoveryLink>::empty());
            }
            while i < held.len()
                invariant
                    i <= held@.len(),
                    events@.len() == lost_links(held@.take(i as int), chain@).len(),
                    forall|m: int|
                        0 <= m < events@.len() ==> (#[trigger] events@[m] matches StrategicEvent::RecoveryLinkLost { faction_id: x, link } && x@
                            == faction_id@ && link == lost_links(held@.take(i as int), chain@)[m]),
                decreases held@.len() - i,
            {
                proof {
                    assert(held@.take(i + 1).drop_last() =~= held@.take(i as int));
                    assert(held@.take(i + 1).last() == held@[i as int]);
                }
                if !contains_link(&chain, held[i]) {
                    events.push(StrategicEvent::RecoveryLinkLost { faction_id: crate::text::owned(faction_id), link: held[i] });
                }
                i = i + 1;
            }
            proof {
                assert(held@.take(held@.len() as int) =~= held@);
            }
            lost_count = events.len();
        }
        let ghost fs = self.factions@;
        let exhausts;
        {
            let faction = self.factions.value_at_mut(idx);
            faction.recovery_links_held = chain;
            faction.has_ever_held = faction.has_ever_held || !empty;
            exhausts = empty && faction.has_ever_held && !faction.eliminated;
        }
        proof {
            crate::keyed::lemma_update_first(fs, idx as int, faction_id@, self.factions@[idx as int].1);
            assert(keys_of(self.factions@) =~= keys_of(fs));
            lemma_chain_ignores_saved_reading(start, *self, faction_id@, *geography, *definitions);
        }
        let ghost mid = *self;
        if exhausts {
            proof {
                crate::keyed::lemma_as_map_dom(self.factions@, faction_id@);
            }
            let mut gone = self.eliminate_faction(faction_id, geography, definitions);
            events.append(&mut gone);
            proof {
                assert(self.factions.contents() =~= start.factions.contents().insert(faction_id@, self.factions.contents()[faction_id@]));
            }
        }
        events
    }

    /// The hourly sweep: ask every faction the save carries, in order,
    /// whether it has run out of ways back. Nothing eliminated comes back, and
    /// a faction ends eliminated only if it already was or it has held
    /// something at some time.
    pub fn eliminate_exhausted_factions(&mut self, geography: &Geography, definitions: &BuildingDefinitions) -> (r: Vec<StrategicEvent>)
        ensures
            exhaustion_swept(*old(self), *final(self), *geography, *definitions, r@),
    {
        let ids = self.factions.keys();
        let ghost start = *self;
        let ghost mut states: Seq<ExpeditionState> = seq![*self];
        let ghost mut runs: Seq<Seq<StrategicEvent>> = Seq::empty();
        let mut events: Vec<StrategicEvent> = Vec::new();
        let mut i: usize = 0;
        proof {
            assert(runs.flatten() =~= Seq::<StrategicEvent>::empty());
        }
        while i < ids.len()
            invariant
                i <= ids@.len(),
                ids@.len() == start.factions@.len(),
                forall|m: int| 0 <= m < ids@.len() ==> #[trigger] ids@[m]@ == keys_of(start.factions@)[m],
                states.len() == i + 1,
                runs.len() == i,
                states[0] == start,
                states.last() == *self,
                events@ == runs.flatten(),
                forall|j: int|
                    0 <= j < runs.len() ==> exhaustion_checked(
                        states[j],
                        states[j + 1],
                        keys_of(start.factions@)[j],
                        *geography,
                        *definitions,
                        #[trigger] runs[j],
                    ),
                self.factions.contents().dom() == start.factions.contents().dom(),
                forall|k: Seq<char>|
                    #![trigger self.factions.contents()[k]]
                    start.factions.contents().contains_key(k) ==> {
                        &&& start.factions.contents()[k].eliminated ==> self.factions.contents()[k].eliminated
                        &&& start.factions.contents()[k].has_ever_held ==> self.factions.contents()[k].has_ever_held
                        &&& self.factions.contents()[k].eliminated ==> (start.factions.contents()[k].eliminated
                            || self.factions.contents()[k].has_ever_held)
                    },
                forall|m: int| 0 <= m < events@.len() ==> (#[trigger] events@[m] is RecoveryLinkLost || events@[m] is FactionEliminated),
                *self == (ExpeditionState {
                    factions: self.factions,
                    buildings: self.buildings,
                    ownership: self.ownership,
                    forces: self.forces,
                    ..start
                }),
            decreases ids@.len() - i,
        {
            let ghost pre = *self;
            let mut more = self.eliminate_if_exhausted(ids[i].as_str(), geography, definitions);
            proof {
                let k0 = ids@[i as int]@;
                if pre.factions.contents().contains_key(k0) {
                    let f = pre.factions.contents()[k0];
                    let chain = chain_of(pre, k0, *geography, *definitions);
                    let lost = lost_links(f.recovery_links_held@, chain);
                    if exhausted(
                        FactionState {
                            recovery_links_held: self.factions.contents()[k0].recovery_links_held,
                            has_ever_held: f.has_ever_held || chain.len() > 0,
                            ..f
                        },
                        chain,
                    ) {
                        let before = choose|before: ExpeditionState|
                            before.factions.contents() == pre.factions.contents().insert(k0, before.factions.contents()[k0])
                                && before.factions.contents()[k0] == (FactionState {
                                recovery_links_held: before.factions.contents()[k0].recovery_links_held,
                                has_ever_held: true,
                                ..f
                            }) && before == (ExpeditionState { factions: before.factions, ..pre }) && eliminated_board(
                                before,
                                *self,
                                k0,
                                *geography,
                                *definitions,
                            );
                        assert(self.factions.contents().dom() =~= pre.factions.contents().dom());
                        assert forall|k: Seq<char>| #[trigger] pre.factions.contents().contains_key(k) && k != k0 implies self.factions.contents()[k]
                            == pre.factions.contents()[k] by {
                            assert(before.factions.contents()[k] == pre.factions.contents()[k]);
                        }
                        assert forall|m: int| 0 <= m < more@.len() implies (#[trigger] more@[m] is RecoveryLinkLost || more@[m] is FactionEliminated) by {
                            if m < lost.len() {
                            }
                        }
                    } else {
                        assert(self.factions.contents().dom() =~= pre.factions.contents().dom());
                        assert forall|m: int| 0 <= m < more@.len() implies (#[trigger] more@[m] is RecoveryLinkLost || more@[m] is FactionEliminated) by {}
                    }
                }
            }
            let ghost ran = more@;
            events.append(&mut more);
            proof {
                runs.lemma_flatten_push(ran);
                let next_states = states.push(*self);
                let next_runs = runs.push(ran);
                assert forall|j: int|
                    0 <= j < next_runs.len() implies exhaustion_checked(
                    next_states[j],
                    next_states[j + 1],
                    keys_of(start.factions@)[j],
                    *geography,
                    *definitions,
                    #[trigger] next_runs[j],
                ) by {
                    if j < runs.len() {
                        assert(next_runs[j] == runs[j]);
                        assert(next_states[j] == states[j] && next_states[j + 1] == states[j + 1]);
                    } else {
                        assert(ids@[j]@ == keys_of(start.factions@)[j]);
                    }
                }
                states = next_states;
                runs = next_runs;
            }
            i = i + 1;
        }
        events
    }
}

} // verus!
