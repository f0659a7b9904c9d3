//! The hour's goals become acts. Six goals, six branches, the same six for
//! everybody on the island; Captain Michael's faction is the player's, so the
//! simulation takes no strategic act on its behalf. Nothing here writes who
//! holds the ground.

use vstd::prelude::*;

use crate::building::{BuildingDefinitions, CELL_CAPACITY_CELLS};
use crate::expedition::ExpeditionState;
use crate::faction::{lemma_concept_keys_distinct, ConceptKey, FactionState, FACTION_ID_PREFIX};
use crate::force::{dispatch_outcome, raise_outcome, ForceError, ForceRecord, FORCE_ID_PREFIX};
use crate::geography::Geography;
use crate::keyed::{first_at, keys_of, lemma_as_map_dom, lemma_as_map_value, lemma_update_first, StrMap, StrSet};
use crate::text::{decimal, hex_digits, owned, push_char, push_decimal, push_hex, push_str, seq_starts_with, str_eq, strip_prefix};
use crate::tick::{HourDraws, StrategicEvent};
use crate::utility::{view_of, BoardView, Goal};

verus! {

/// What one held cell yields a faction in one hour of recovering.
/// Provisional: the smallest number that is not nothing.
pub const GATHER_PER_HELD_CELL_PER_HOUR: u32 = 1;

/// The open stockpile key a gathered trickle lands under.
pub const GATHERED_RESOURCE_KEY: &'static str = "resource.open.gathered";

/// What a faction sends when it reaches for ground: an open placeholder
/// until content authors a rank and file.
pub const FORCE_COMPOSITION_ACTOR_KEY: &'static str = "actor.open.needs_decision";

/// How many of them. Provisional.
pub const FORCE_COMPOSITION_HEADS: u32 = 6;

/// How many bodies one faction keeps on the board at once.
pub const MAX_STANDING_FORCES_PER_FACTION: usize = 1;

/// Why a goal could not be acted on this hour.
#[derive(Clone, Debug, PartialEq, Eq)]
pub enum ActionSkipReason {
    NoActionAuthoredYet,
    NoHeldCell,
    NoCompatibleBuilding,
    NoRoomToBuild,
    InsufficientResource { key: String, held: u32, needed: u32 },
    NoReachableTarget,
    NoIdleForce,
    OrderRefused,
    PlacementRefused,
}

/// The assignment a dispatched force carries, per goal.
pub open spec fn assignment_text(goal: Goal) -> Seq<char> {
    match goal {
        Goal::Expand => "goal.expand"@,
        Goal::Pressure => "goal.pressure"@,
        Goal::Recover => "goal.recover"@,
        Goal::Consolidate => "goal.consolidate"@,
        Goal::Develop => "goal.develop"@,
        Goal::Withdraw => "goal.withdraw"@,
    }
}

fn assignment_of(goal: Goal) -> (r: &'static str)
    ensures
        r@ == assignment_text(goal),
{
    match goal {
        Goal::Expand => "goal.expand",
        Goal::Pressure => "goal.pressure",
        Goal::Recover => "goal.recover",
        Goal::Consolidate => "goal.consolidate",
        Goal::Develop => "goal.develop",
        Goal::Withdraw => "goal.withdraw",
    }
}

/// A faction's concept key as it appears in IDs: its ID without the
/// `faction.` prefix, or the whole ID where it has none.
pub open spec fn concept_part(faction_id: Seq<char>) -> Seq<char> {
    if seq_starts_with(faction_id, FACTION_ID_PREFIX@) {
        faction_id.skip(FACTION_ID_PREFIX@.len() as int)
    } else {
        faction_id
    }
}

fn concept_of(faction_id: &str) -> (r: String)
    ensures
        r@ == concept_part(faction_id@),
{
    match strip_prefix(faction_id, FACTION_ID_PREFIX) {
        Some(rest) => rest,
        None => owned(faction_id),
    }
}

/// The ID of the building a faction founds in an hour.
pub open spec fn building_instance_id_of(faction_id: Seq<char>, day: u32, hour: u8, draw: u64) -> Seq<char> {
    "building_instance.s17."@ + concept_part(faction_id) + ".d"@ + decimal(day as nat) + seq!['h'] + decimal(hour as nat) + seq!['.']
        + hex_digits(draw as nat, 16)
}

fn building_instance_id(faction_id: &str, day: u32, hour: u8, draw: u64) -> (r: String)
    ensures
        r@ == building_instance_id_of(faction_id@, day, hour, draw),
{
    let mut id = owned("building_instance.s17.");
    let concept = concept_of(faction_id);
    push_str(&mut id, concept.as_str());
    push_str(&mut id, ".d");
    push_decimal(&mut id, day as u64);
    push_char(&mut id, 'h');
    push_decimal(&mut id, hour as u64);
    push_char(&mut id, '.');
    push_hex(&mut id, draw, 16);
    id
}

/// What a goal is for, as a force's ID spells it.
pub open spec fn purpose_text(goal: Goal) -> Seq<char> {
    match goal {
        Goal::Expand => "expand"@,
        Goal::Pressure => "pressure"@,
        Goal::Recover => "recover"@,
        Goal::Consolidate => "consolidate"@,
        Goal::Develop => "develop"@,
        Goal::Withdraw => "withdraw"@,
    }
}

fn purpose_of(goal: Goal) -> (r: &'static str)
    ensures
        r@ == purpose_text(goal),
{
    match goal {
        Goal::Expand => "expand",
        Goal::Pressure => "pressure",
        Goal::Recover => "recover",
        Goal::Consolidate => "consolidate",
        Goal::Develop => "develop",
        Goal::Withdraw => "withdraw",
    }
}

/// The ID of the body a faction raises in an hour, for one goal.
pub open spec fn force_id_of(faction_id: Seq<char>, goal: Goal, day: u32, hour: u8, draw: u64) -> Seq<char> {
    "force.s17."@ + concept_part(faction_id) + seq!['.'] + purpose_text(goal) + ".d"@ + decimal(day as nat) + seq!['h']
        + decimal(hour as nat) + seq!['.'] + hex_digits(draw as nat, 16)
}

fn force_id(faction_id: &str, goal: Goal, day: u32, hour: u8, draw: u64) -> (r: String)
    ensures
        r@ == force_id_of(faction_id@, goal, day, hour, draw),
{
    let mut id = owned("force.s17.");
    let concept = concept_of(faction_id);
    push_str(&mut id, concept.as_str());
    push_char(&mut id, '.');
    let purpose = purpose_of(goal);
    push_str(&mut id, purpose);
    push_str(&mut id, ".d");
    push_decimal(&mut id, day as u64);
    push_char(&mut id, 'h');
    push_decimal(&mut id, hour as u64);
    push_char(&mut id, '.');
    push_hex(&mut id, draw, 16);
    id
}

/// What acting may change: the acting faction's stockpile, buildings (by
/// adding), and that faction's forces. Nobody's ground changes hands, no
/// other faction is touched, and nothing else in the save moves.
pub open spec fn acted_frame(before: ExpeditionState, after: ExpeditionState, faction_id: Seq<char>) -> bool {
    &&& after == (ExpeditionState { factions: after.factions, buildings: after.buildings, forces: after.forces, ..before })
    &&& after.factions.contents().dom() == before.factions.contents().dom()
    &&& forall|k: Seq<char>|
        #![trigger after.factions.contents()[k]]
        before.factions.contents().contains_key(k) ==> if k == faction_id {
            after.factions.contents()[k] == (FactionState { resources: after.factions.contents()[k].resources, ..before.factions.contents()[k] })
        } else {
            after.factions.contents()[k] == before.factions.contents()[k]
        }
    &&& before.buildings.contents().submap_of(after.buildings.contents())
    &&& before.forces.contents().dom().subset_of(after.forces.contents().dom())
    &&& forall|k: Seq<char>|
        #![trigger after.forces.contents()[k]]
        before.forces.contents().contains_key(k) && before.forces.contents()[k].faction_id@ != faction_id ==> after.forces.contents()[k]
            == before.forces.contents()[k]
}

/// Acting, then acting again, stays inside the frame.
pub proof fn lemma_acted_trans(a: ExpeditionState, b: ExpeditionState, c: ExpeditionState, faction_id: Seq<char>)
    requires
        acted_frame(a, b, faction_id),
        acted_frame(b, c, faction_id),
    ensures
        acted_frame(a, c, faction_id),
{
    assert forall|k: Seq<char>| a.factions.contents().contains_key(k) implies (if k == faction_id {
        c.factions.contents()[k] == (FactionState { resources: c.factions.contents()[k].resources, ..a.factions.contents()[k] })
    } else {
        c.factions.contents()[k] == a.factions.contents()[k]
    }) by {
        let y = b.factions.contents()[k];
        let z = c.factions.contents()[k];
    }
    vstd::map_lib::lemma_submap_of_trans(a.buildings.contents(), b.buildings.contents(), c.buildings.contents());
    assert forall|k: Seq<char>| a.forces.contents().contains_key(k) && a.forces.contents()[k].faction_id@ != faction_id implies c.forces.contents()[k]
        == a.forces.contents()[k] by {
        let y = b.forces.contents()[k];
        let z = c.forces.contents()[k];
    }
}

/// Nothing done stays inside the frame.
pub proof fn lemma_acted_refl(a: ExpeditionState, faction_id: Seq<char>)
    ensures
        acted_frame(a, a, faction_id),
{
    assert forall|k: Seq<char>| a.factions.contents().contains_key(k) implies (if k == faction_id {
        a.factions.contents()[k] == (FactionState { resources: a.factions.contents()[k].resources, ..a.factions.contents()[k] })
    } else {
        a.factions.contents()[k] == a.factions.contents()[k]
    }) by {}
}

/// The trickle one hour of recovering gathers from this much ground.
pub open spec fn trickle(held_cells: nat) -> u32 {
    (held_cells as u32) as u32
}

/// What recovering does for one faction in one hour: with no ground, or no
/// stockpile to fill, nothing; otherwise one per held cell, saturating, into
/// the open gathered key, and the yield is reported.
pub open spec fn gathered(pre: ExpeditionState, post: ExpeditionState, view: BoardView, day: u32, r: Result<Vec<StrategicEvent>, ActionSkipReason>) -> bool {
    let f = view.faction_id@;
    let n = view.held.order().len();
    let amount = (n as u32) as int;
    &&& (n == 0 || amount == 0 || !pre.factions.contents().contains_key(f)) ==> r == Err::<Vec<StrategicEvent>, ActionSkipReason>(
        ActionSkipReason::NoHeldCell,
    ) && post == pre
    &&& !(n == 0 || amount == 0 || !pre.factions.contents().contains_key(f)) ==> {
        let before = pre.factions.contents()[f].resources.contents();
        let after = post.factions.contents()[f].resources.contents();
        &&& r matches Ok(evs) && evs@.len() == 1 && (evs@[0] matches StrategicEvent::Gathered {
            faction_id: a,
            resource_key: k,
            amount: m,
            day: d,
        } && a@ == f && k@ == GATHERED_RESOURCE_KEY@ && m as int == amount && d == day)
        &&& after == before.insert(
            GATHERED_RESOURCE_KEY@,
            crate::building::sat_add(crate::production::held_of(before, GATHERED_RESOURCE_KEY@), amount as u32),
        )
        &&& post.factions.contents() == pre.factions.contents().insert(
            f,
            FactionState { resources: post.factions.contents()[f].resources, ..pre.factions.contents()[f] },
        )
        &&& post == (ExpeditionState { factions: post.factions, ..pre })
    }
}

/// Goal::Recover: a trickle from held ground into the open stockpile.
fn gather(state: &mut ExpeditionState, view: &BoardView, day: u32) -> (r: Result<Vec<StrategicEvent>, ActionSkipReason>)
    ensures
        acted_frame(*old(state), *final(state), view.faction_id@),
        gathered(*old(state), *final(state), *view, day, r),
{
    proof {
        lemma_acted_refl(*state, view.faction_id@);
    }
    let n = view.held.len();
    if n == 0 {
        return Err(ActionSkipReason::NoHeldCell);
    }
    let amount = n as u32;
    if amount == 0 {
        return Err(ActionSkipReason::NoHeldCell);
    }
    let idx = match state.factions.find(view.faction_id.as_str()) {
        Some(i) => i,
        None => {
            proof {
                lemma_as_map_dom(state.factions@, view.faction_id@);
            }
            return Err(ActionSkipReason::NoHeldCell);
        },
    };
    proof {
        lemma_as_map_value(state.factions@, view.faction_id@, idx as int);
        lemma_as_map_dom(state.factions@, view.faction_id@);
    }
    let ghost fs = state.factions@;
    let ghost start = *state;
    {
        let faction = state.factions.value_at_mut(idx);
        let held = match faction.resources.get(GATHERED_RESOURCE_KEY) {
            Some(h) => *h,
            None => 0,
        };
        faction.resources.insert(owned(GATHERED_RESOURCE_KEY), held.saturating_add(amount));
    }
    proof {
        lemma_update_first(fs, idx as int, view.faction_id@, state.factions@[idx as int].1);
        assert(keys_of(state.factions@) =~= keys_of(fs));
        assert(state.factions.contents().dom() =~= start.factions.contents().dom());
        assert forall|k: Seq<char>| #[trigger] start.factions.contents().contains_key(k) implies (if k == view.faction_id@ {
            state.factions.contents()[k] == (FactionState { resources: state.factions.contents()[k].resources, ..start.factions.contents()[k] })
        } else {
            state.factions.contents()[k] == start.factions.contents()[k]
        }) by {}
    }
    let mut events: Vec<StrategicEvent> = Vec::new();
    events.push(StrategicEvent::Gathered {
        faction_id: view.faction_id.clone(),
        resource_key: owned(GATHERED_RESOURCE_KEY),
        amount,
        day,
    });
    Ok(events)
}

/// The stockpile after a construction cost is paid, key by key: every key
/// is set to what it held less what it costs, never below zero.
pub open spec fn spent(resources: Map<Seq<char>, u32>, cost: Seq<(Seq<char>, u32)>) -> Map<Seq<char>, u32>
    decreases cost.len(),
{
    if cost.len() == 0 {
        resources
    } else {
        let before = spent(resources, cost.drop_last());
        let key = cost.last().0;
        let held = crate::production::held_of(before, key);
        before.insert(key, if held >= cost.last().1 { (held - cost.last().1) as u32 } else { 0 })
    }
}

impl FactionState {
    /// Pay a construction cost: every key of it is written, less what it
    /// costs, never below zero.
    pub fn pay_construction(&mut self, cost: &StrMap<u32>)
        ensures
            final(self).resources.contents() == spent(old(self).resources.contents(), cost@),
            *final(self) == (FactionState { resources: final(self).resources, ..*old(self) }),
    {
        let mut i: usize = 0;
        proof {
            assert(cost@.take(0) =~= Seq::<(Seq<char>, u32)>::empty());
        }
        while i < cost.len()
            invariant
                i <= cost@.len(),
                self.resources.contents() == spent(old(self).resources.contents(), cost@.take(i as int)),
                *self == (FactionState { resources: self.resources, ..*old(self) }),
            decreases cost@.len() - i,
        {
            proof {
                assert(cost@.take(i + 1).drop_last() =~= cost@.take(i as int));
            }
            let key = cost.key_at(i);
            let needed = *cost.value_at(i);
            let held = match self.resources.get(key.as_str()) {
                Some(h) => *h,
                None => 0,
            };
            self.resources.insert(key.clone(), held.saturating_sub(needed));
            i = i + 1;
        }
        proof {
            assert(cost@.take(cost@.len() as int) =~= cost@);
        }
    }
}

/// The concept a faction ID names: `faction.` and one of the six keys.
pub open spec fn concept_of_id(faction_id: Seq<char>) -> Option<ConceptKey> {
    if faction_id == ConceptKey::FoxPeople.id() {
        Some(ConceptKey::FoxPeople)
    } else if faction_id == ConceptKey::ColonialPowers.id() {
        Some(ConceptKey::ColonialPowers)
    } else if faction_id == ConceptKey::Pirates.id() {
        Some(ConceptKey::Pirates)
    } else if faction_id == ConceptKey::Elves.id() {
        Some(ConceptKey::Elves)
    } else if faction_id == ConceptKey::Cthulhu.id() {
        Some(ConceptKey::Cthulhu)
    } else if faction_id == ConceptKey::Michael.id() {
        Some(ConceptKey::Michael)
    } else {
        None
    }
}

/// A faction ID is a concept's exactly when it is `faction.` and that
/// concept's key.
proof fn lemma_concept_of_id(faction_id: Seq<char>, rest: Seq<char>)
    requires
        seq_starts_with(faction_id, FACTION_ID_PREFIX@),
        rest == faction_id.skip(FACTION_ID_PREFIX@.len() as int),
    ensures
        forall|c: ConceptKey| #[trigger] c.key() == rest ==> concept_of_id(faction_id) == Some(c),
        (forall|c: ConceptKey| #[trigger] c.key() != rest) ==> concept_of_id(faction_id) is None,
{
    let p = FACTION_ID_PREFIX@;
    assert(faction_id =~= p + rest);
    assert forall|c: ConceptKey| #[trigger] c.key() == rest implies concept_of_id(faction_id) == Some(c) by {
        assert(faction_id == c.id());
        match concept_of_id(faction_id) {
            Some(x) => {
                lemma_concept_keys_distinct(x, c);
            },
            None => {},
        }
    }
    if forall|c: ConceptKey| #[trigger] c.key() != rest {
        assert forall|c: ConceptKey| faction_id != #[trigger] c.id() by {
            if faction_id == c.id() {
                assert(c.id().skip(p.len() as int) =~= c.key());
            }
        }
    }
}

/// No concept's ID lacks the `faction.` prefix.
proof fn lemma_no_concept_without_prefix(faction_id: Seq<char>)
    requires
        !seq_starts_with(faction_id, FACTION_ID_PREFIX@),
    ensures
        concept_of_id(faction_id) is None,
{
    assert forall|c: ConceptKey| faction_id != #[trigger] c.id() by {
        if faction_id == c.id() {
            assert(c.id().subrange(0, FACTION_ID_PREFIX@.len() as int) =~= FACTION_ID_PREFIX@);
        }
    }
}

/// A faction of this concept may raise the record at position `i` of the
/// registry.
pub open spec fn raisable(defs: BuildingDefinitions, c: ConceptKey, i: int) -> bool {
    defs.records()[defs.order()[i].0].faction_compatibility@.contains(c)
}

/// Position `i` holds the first record, in ID order, a faction of this
/// concept may raise.
pub open spec fn first_raisable(defs: BuildingDefinitions, c: ConceptKey, i: int) -> bool {
    &&& 0 <= i < defs.order().len()
    &&& raisable(defs, c, i)
    &&& forall|j: int| 0 <= j < i ==> !#[trigger] raisable(defs, c, j)
}

/// What is left of a cell takes one more envelope of this size.
pub open spec fn has_room(s: ExpeditionState, defs: Map<Seq<char>, crate::building::BuildingDefinition>, cell: Seq<char>, envelope: u32) -> bool {
    crate::building::sat_add(crate::building::cell_use(s.buildings@, defs, cell), envelope) <= CELL_CAPACITY_CELLS
}

/// Position `k` holds the first of a faction's cells, in ascending order,
/// with room for one more envelope of this size.
pub open spec fn first_room(
    s: ExpeditionState,
    held: Seq<Seq<char>>,
    defs: Map<Seq<char>, crate::building::BuildingDefinition>,
    envelope: u32,
    k: int,
) -> bool {
    &&& 0 <= k < held.len()
    &&& has_room(s, defs, held[k], envelope)
    &&& forall|j: int| 0 <= j < k ==> !has_room(s, defs, #[trigger] held[j], envelope)
}

/// What developing does for one faction in one hour, refusal by refusal: no
/// ground; an ID that names no concept, or no record that concept may raise;
/// no held cell with room for the first such record; no faction to pay; the
/// first key of its cost the stockpile does not cover; and a placement the
/// board refuses. Otherwise that record goes up on the first cell with room,
/// under the hour's building ID, its cost is paid key by key, and the start
/// is reported.
pub open spec fn developed(
    pre: ExpeditionState,
    post: ExpeditionState,
    view: BoardView,
    geography: Geography,
    buildings: BuildingDefinitions,
    day: u32,
    hour: u8,
    draw: u64,
    r: Result<Vec<StrategicEvent>, ActionSkipReason>,
) -> bool {
    let held = view.held.order();
    let f = view.faction_id@;
    let defs = buildings.records();
    let order = buildings.order();
    &&& held.len() == 0 ==> r == Err::<Vec<StrategicEvent>, ActionSkipReason>(ActionSkipReason::NoHeldCell)
    &&& held.len() > 0 && concept_of_id(f) is None ==> r == Err::<Vec<StrategicEvent>, ActionSkipReason>(
        ActionSkipReason::NoCompatibleBuilding,
    )
    &&& held.len() > 0 ==> (concept_of_id(f) matches Some(c) ==> {
        &&& (forall|i: int| 0 <= i < order.len() ==> !#[trigger] raisable(buildings, c, i)) ==> r == Err::<
            Vec<StrategicEvent>,
            ActionSkipReason,
        >(ActionSkipReason::NoCompatibleBuilding)
        &&& forall|i: int|
            #[trigger] first_raisable(buildings, c, i) ==> {
                let def_id = order[i].0;
                let d = defs[def_id];
                let envelope = crate::building::envelope_of(d);
                &&& (forall|k: int| 0 <= k < held.len() ==> !has_room(pre, defs, #[trigger] held[k], envelope)) ==> r == Err::<
                    Vec<StrategicEvent>,
                    ActionSkipReason,
                >(ActionSkipReason::NoRoomToBuild)
                &&& forall|k: int|
                    #[trigger] first_room(pre, held, defs, envelope, k) ==> {
                        let cell = held[k];
                        let id = building_instance_id_of(f, day, hour, draw);
                        let cost = d.construction_cost@;
                        &&& !pre.factions.contents().contains_key(f) ==> r == Err::<Vec<StrategicEvent>, ActionSkipReason>(
                            ActionSkipReason::NoHeldCell,
                        )
                        &&& pre.factions.contents().contains_key(f) ==> {
                            let res = pre.factions.contents()[f].resources.contents();
                            &&& forall|q: int|
                                #[trigger] crate::production::first_short(res, cost, q) ==> (r matches Err(
                                    ActionSkipReason::InsufficientResource { key, held: h, needed },
                                ) && key@ == cost[q].0 && h == crate::production::held_of(res, cost[q].0) && needed == cost[q].1)
                            &&& crate::production::covers(res, cost) && !crate::building::placement_allowed(
                                pre,
                                id,
                                def_id,
                                cell,
                                f,
                                geography,
                                defs,
                            ) ==> r == Err::<Vec<StrategicEvent>, ActionSkipReason>(ActionSkipReason::PlacementRefused)
                            &&& crate::production::covers(res, cost) && crate::building::placement_allowed(
                                pre,
                                id,
                                def_id,
                                cell,
                                f,
                                geography,
                                defs,
                            ) ==> (r matches Ok(evs) && evs@.len() == 1 && (evs@[0] matches StrategicEvent::BuildingStarted {
                                faction_id: a,
                                building_instance_id: b,
                                def_id: dd,
                                cell_id: cc,
                                day: dy,
                            } && a@ == f && b@ == id && dd@ == def_id && cc@ == cell && dy == day)
                                && crate::building::placed(pre.buildings.contents(), post.buildings.contents(), id, def_id, cell, f, d)
                                && post.factions.contents() == pre.factions.contents().insert(
                                f,
                                FactionState {
                                    resources: post.factions.contents()[f].resources,
                                    ..pre.factions.contents()[f]
                                },
                            ) && post.factions.contents()[f].resources.contents() == spent(res, cost) && post.forces == pre.forces)
                        }
                    }
            }
    })
    &&& r is Err ==> post == pre
}

/// The first key of the cost that the faction's stockpile does not cover.
fn first_shortfall(resources: &StrMap<u32>, cost: &StrMap<u32>) -> (r: Option<usize>)
    ensures
        match r {
            Some(i) => crate::production::first_short(resources.contents(), cost@, i as int),
            None => crate::production::covers(resources.contents(), cost@),
        },
{
    let mut i: usize = 0;
    while i < cost.len()
        invariant
            i <= cost@.len(),
            forall|j: int| 0 <= j < i ==> crate::production::held_of(resources.contents(), (#[trigger] cost@[j]).0) >= cost@[j].1,
        decreases cost@.len() - i,
    {
        let held = match resources.get(cost.key_at(i).as_str()) {
            Some(h) => *h,
            None => 0,
        };
        if held < *cost.value_at(i) {
            return Some(i);
        }
        i = i + 1;
    }
    None
}

/// Goal::Develop: raise the first building this faction may raise, on the
/// first of its cells with room for it, paying its cost first; every refusal
/// leaves the board as it was.
#[verifier::rlimit(40)]
fn develop(
    state: &mut ExpeditionState,
    view: &BoardView,
    geography: &Geography,
    buildings: &BuildingDefinitions,
    day: u32,
    hour: u8,
    draw: u64,
) -> (r: Result<Vec<StrategicEvent>, ActionSkipReason>)
    ensures
        r is Err ==> *final(state) == *old(state),
        acted_frame(*old(state), *final(state), view.faction_id@),
        developed(*old(state), *final(state), *view, *geography, *buildings, day, hour, draw, r),
        view.held.order().len() == 0 ==> (r matches Err(e) && e is NoHeldCell),
        r matches Ok(evs) ==> {
            let id = building_instance_id_of(view.faction_id@, day, hour, draw);
            &&& evs@.len() == 1
            &&& evs@[0] matches StrategicEvent::BuildingStarted { faction_id, building_instance_id, def_id, cell_id, day: d }
            &&& evs@[0]->BuildingStarted_faction_id@ == view.faction_id@
            &&& evs@[0]->BuildingStarted_building_instance_id@ == id
            &&& evs@[0]->BuildingStarted_day == day
            &&& view.held@.contains(evs@[0]->BuildingStarted_cell_id@)
            &&& buildings.records().contains_key(evs@[0]->BuildingStarted_def_id@)
            &&& final(state).buildings.contents().dom() == old(state).buildings.contents().dom().insert(id)
            &&& old(state).factions.contents().contains_key(view.faction_id@)
            &&& final(state).factions.contents()[view.faction_id@].resources.contents() == spent(
                old(state).factions.contents()[view.faction_id@].resources.contents(),
                buildings.records()[evs@[0]->BuildingStarted_def_id@].construction_cost@,
            )
        },
{
    proof {
        lemma_acted_refl(*state, view.faction_id@);
    }
    let ghost pre = *state;
    let ghost defs = buildings.records();
    if view.held.len() == 0 {
        return Err(ActionSkipReason::NoHeldCell);
    }
    let concept = match strip_prefix(view.faction_id.as_str(), FACTION_ID_PREFIX) {
        Some(key) => {
            proof {
                lemma_concept_of_id(view.faction_id@, key@);
            }
            match ConceptKey::from_key(key.as_str()) {
                Some(c) => c,
                None => {
                    return Err(ActionSkipReason::NoCompatibleBuilding);
                },
            }
        },
        None => {
            proof {
                lemma_no_concept_without_prefix(view.faction_id@);
            }
            return Err(ActionSkipReason::NoCompatibleBuilding);
        },
    };
    assert(concept_of_id(view.faction_id@) == Some(concept));
    let ids = buildings.ids();
    let mut found: Option<usize> = None;
    let mut i: usize = 0;
    while i < ids.len()
        invariant_except_break
            found is None,
        invariant
            i <= ids@.len(),
            ids@.len() == buildings.order().len(),
            forall|j: int| 0 <= j < ids@.len() ==> #[trigger] ids@[j]@ == buildings.order()[j].0,
            forall|j: int| 0 <= j < ids@.len() ==> buildings.records().contains_key(#[trigger] buildings.order()[j].0),
            forall|j: int| 0 <= j < i ==> !#[trigger] raisable(*buildings, concept, j),
        ensures
            found matches Some(k) ==> k < ids@.len() && first_raisable(*buildings, concept, k as int),
            found is None ==> forall|j: int| 0 <= j < ids@.len() ==> !#[trigger] raisable(*buildings, concept, j),
        decreases ids@.len() - i,
    {
        match buildings.get(ids[i].as_str()) {
            Some(d) => {
                if d.compatible_with(concept) {
                    found = Some(i);
                    break;
                }
            },
            None => {},
        }
        i = i + 1;
    }
    let def_id = match found {
        Some(k) => ids[k].clone(),
        None => {
            return Err(ActionSkipReason::NoCompatibleBuilding);
        },
    };
    let definition = match buildings.get(def_id.as_str()) {
        Some(d) => d,
        None => {
            return Err(ActionSkipReason::NoCompatibleBuilding);
        },
    };
    let envelope = definition.envelope_cells();
    let mut cell: Option<usize> = None;
    let mut c: usize = 0;
    while c < view.held.len()
        invariant_except_break
            cell is None,
        invariant
            c <= view.held.order().len(),
            *state == pre,
            defs == buildings.records(),
            forall|j: int| 0 <= j < c ==> !has_room(pre, defs, #[trigger] view.held.order()[j], envelope),
        ensures
            cell matches Some(k) ==> k < view.held.order().len() && first_room(pre, view.held.order(), defs, envelope, k as int),
            cell is None ==> forall|j: int| 0 <= j < view.held.order().len() ==> !has_room(pre, defs, #[trigger] view.held.order()[j], envelope),
        decreases view.held.order().len() - c,
    {
        if state.envelope_cells_used(view.held.at(c).as_str(), buildings).saturating_add(envelope) <= CELL_CAPACITY_CELLS {
            cell = Some(c);
            break;
        }
        c = c + 1;
    }
    let cell_id = match cell {
        Some(k) => view.held.at(k).clone(),
        None => {
            return Err(ActionSkipReason::NoRoomToBuild);
        },
    };
    proof {
        view.held.lemma_order();
    }
    proof {
        lemma_as_map_dom(state.factions@, view.faction_id@);
    }
    let idx = match state.factions.find(view.faction_id.as_str()) {
        Some(k) => k,
        None => {
            return Err(ActionSkipReason::NoHeldCell);
        },
    };
    proof {
        lemma_as_map_value(state.factions@, view.faction_id@, idx as int);
    }
    match first_shortfall(&state.factions.value_at(idx).resources, &definition.construction_cost) {
        Some(k) => {
            proof {
                let res = pre.factions.contents()[view.faction_id@].resources.contents();
                let cost = definition.construction_cost@;
                assert forall|q: int| #[trigger] crate::production::first_short(res, cost, q) implies q == k by {
                    if q < k {
                        assert(crate::production::held_of(res, cost[q].0) >= cost[q].1);
                    }
                    if k < q {
                        assert(crate::production::held_of(res, cost[k as int].0) >= cost[k as int].1);
                    }
                }
            }
            let held = match state.factions.value_at(idx).resources.get(definition.construction_cost.key_at(k).as_str()) {
                Some(h) => *h,
                None => 0,
            };
            return Err(ActionSkipReason::InsufficientResource {
                key: definition.construction_cost.key_at(k).clone(),
                held,
                needed: *definition.construction_cost.value_at(k),
            });
        },
        None => {},
    }
    let instance_id = building_instance_id(view.faction_id.as_str(), day, hour, draw);
    let ghost start = *state;
    match state.place_building(instance_id.as_str(), def_id.as_str(), cell_id.as_str(), view.faction_id.as_str(), geography, buildings) {
        Ok(()) => {},
        Err(_) => {
            return Err(ActionSkipReason::PlacementRefused);
        },
    }
    let ghost placed = *state;
    let ghost fs = state.factions@;
    proof {
        assert(first_at(fs, view.faction_id@, idx as int));
    }
    {
        let faction = state.factions.value_at_mut(idx);
        faction.pay_construction(&definition.construction_cost);
    }
    proof {
        lemma_update_first(fs, idx as int, view.faction_id@, state.factions@[idx as int].1);
        assert(keys_of(state.factions@) =~= keys_of(fs));
        assert(state.factions.contents().dom() =~= start.factions.contents().dom());
        assert forall|k: Seq<char>| #[trigger] start.factions.contents().contains_key(k) implies (if k == view.faction_id@ {
            state.factions.contents()[k] == (FactionState { resources: state.factions.contents()[k].resources, ..start.factions.contents()[k] })
        } else {
            state.factions.contents()[k] == start.factions.contents()[k]
        }) by {}
        assert(start.buildings.contents().submap_of(state.buildings.contents())) by {
            assert forall|k: Seq<char>| #[trigger] start.buildings.contents().contains_key(k) implies state.buildings.contents().contains_key(k)
                && state.buildings.contents()[k] == start.buildings.contents()[k] by {
                assert(k != instance_id@);
            }
        }
    }
    let mut events: Vec<StrategicEvent> = Vec::new();
    events.push(StrategicEvent::BuildingStarted {
        faction_id: view.faction_id.clone(),
        building_instance_id: instance_id,
        def_id,
        cell_id,
        day,
    });
    Ok(events)
}

/// Which frontier a march is aimed at.
#[derive(Clone, Copy, Debug, PartialEq, Eq, Structural)]
enum Target {
    /// Goal::Expand: ground nobody holds.
    Unheld,
    /// Goal::Pressure: ground a rival holds.
    Rival,
}

/// The cells a march of this kind may be aimed at, in ascending order.
pub open spec fn candidate_cells(view: BoardView, unheld: bool) -> Set<Seq<char>> {
    if unheld {
        view.open_frontier@
    } else {
        view.contested_frontier.contents().dom()
    }
}

/// The border cells a march of this kind walks, in ascending order.
pub open spec fn march_candidates(view: BoardView, unheld: bool) -> Seq<Seq<char>> {
    if unheld {
        view.open_frontier.order()
    } else {
        keys_of(view.contested_frontier@)
    }
}

/// The force under entry `j` belongs to the faction and has no road left.
pub open spec fn idle_at(fs: Seq<(Seq<char>, ForceRecord)>, fc: Map<Seq<char>, ForceRecord>, f: Seq<char>, j: int) -> bool {
    fc.contains_key(fs[j].0) && fc[fs[j].0].faction_id@ == f && fc[fs[j].0].route@.len() == 0
}

/// Entry `j` holds the faction's first idle force, in key order.
pub open spec fn first_idle(fs: Seq<(Seq<char>, ForceRecord)>, fc: Map<Seq<char>, ForceRecord>, f: Seq<char>, j: int) -> bool {
    &&& 0 <= j < fs.len()
    &&& idle_at(fs, fc, f, j)
    &&& forall|i: int| 0 <= i < j ==> !#[trigger] idle_at(fs, fc, f, i)
}

/// How many of the first `n` entries are the faction's forces.
pub open spec fn count_mine(fs: Seq<(Seq<char>, ForceRecord)>, fc: Map<Seq<char>, ForceRecord>, f: Seq<char>, n: int) -> nat
    decreases n,
{
    if n <= 0 {
        0
    } else {
        count_mine(fs, fc, f, n - 1) + if fc.contains_key(fs[n - 1].0) && fc[fs[n - 1].0].faction_id@ == f {
            1nat
        } else {
            0nat
        }
    }
}

/// Position `k` holds the first candidate that is not where the body stands.
pub open spec fn first_other(cands: Seq<Seq<char>>, from: Seq<char>, k: int) -> bool {
    &&& 0 <= k < cands.len()
    &&& cands[k] != from
    &&& forall|i: int| 0 <= i < k ==> #[trigger] cands[i] == from
}

/// A force after its assignment is set to the goal's, and nothing else.
pub open spec fn assigned(sent: ExpeditionState, post: ExpeditionState, key: Seq<char>, goal: Goal) -> bool {
    &&& post == (ExpeditionState { forces: post.forces, ..sent })
    &&& post.forces.contents() == sent.forces.contents().insert(
        key,
        ForceRecord { assignment: post.forces.contents()[key].assignment, ..sent.forces.contents()[key] },
    )
    &&& post.forces.contents()[key].assignment@ == assignment_text(goal)
}

/// Ordering the body under `key` at `dest`: the dispatch, then, where it
/// went, the goal's assignment and the departure as the hour's one event;
/// where it was refused, the refusal.
pub open spec fn ordered(
    mid: ExpeditionState,
    post: ExpeditionState,
    key: Seq<char>,
    dest: Seq<char>,
    geography: Geography,
    goal: Goal,
    r: Result<Vec<StrategicEvent>, ActionSkipReason>,
) -> bool {
    exists|sent: ExpeditionState, dr: Result<StrategicEvent, ForceError>|
        #![trigger dispatch_outcome(mid, sent, key, dest, geography, dr)]
        {
            &&& dispatch_outcome(mid, sent, key, dest, geography, dr)
            &&& dr is Err ==> r == Err::<Vec<StrategicEvent>, ActionSkipReason>(ActionSkipReason::OrderRefused) && post == sent
            &&& dr matches Ok(ev) ==> (r matches Ok(evs) && evs@ == seq![ev] && assigned(sent, post, key, goal))
        }
}

/// What marching does for one faction in one hour: no ground, or no border
/// cell of the kind it reaches for, and it does nothing; its body is its
/// first force in key order with no road left, and where it has none, one
/// is raised on its first held cell for the goal — unless it already keeps
/// as many bodies as it may, none of them idle; the body is sent at the
/// first candidate it is not standing on, or nowhere if there is none.
pub open spec fn marched(
    pre: ExpeditionState,
    post: ExpeditionState,
    view: BoardView,
    geography: Geography,
    goal: Goal,
    hour: u8,
    draw: u64,
    unheld: bool,
    r: Result<Vec<StrategicEvent>, ActionSkipReason>,
) -> bool {
    let f = view.faction_id@;
    let held = view.held.order();
    let cands = march_candidates(view, unheld);
    let fs = pre.forces@;
    let fc = pre.forces.contents();
    let none_idle = forall|j: int| 0 <= j < fs.len() ==> !#[trigger] idle_at(fs, fc, f, j);
    let mine = count_mine(fs, fc, f, fs.len() as int);
    &&& held.len() == 0 ==> r == Err::<Vec<StrategicEvent>, ActionSkipReason>(ActionSkipReason::NoHeldCell) && post == pre
    &&& held.len() > 0 && cands.len() == 0 ==> r == Err::<Vec<StrategicEvent>, ActionSkipReason>(ActionSkipReason::NoReachableTarget)
        && post == pre
    &&& held.len() > 0 && cands.len() > 0 && none_idle && mine >= MAX_STANDING_FORCES_PER_FACTION ==> r == Err::<
        Vec<StrategicEvent>,
        ActionSkipReason,
    >(ActionSkipReason::NoIdleForce) && post == pre
    &&& held.len() > 0 && cands.len() > 0 ==> forall|j: int|
        #[trigger] first_idle(fs, fc, f, j) ==> {
            let from = fc[fs[j].0].position_cell_id@;
            &&& (forall|k: int| 0 <= k < cands.len() ==> #[trigger] cands[k] == from) ==> r == Err::<
                Vec<StrategicEvent>,
                ActionSkipReason,
            >(ActionSkipReason::NoReachableTarget) && post == pre
            &&& forall|k: int| #[trigger] first_other(cands, from, k) ==> ordered(pre, post, fs[j].0, cands[k], geography, goal, r)
        }
    &&& held.len() > 0 && cands.len() > 0 && none_idle && mine < MAX_STANDING_FORCES_PER_FACTION ==> {
        let from = held[0];
        let id = force_id_of(f, goal, pre.campaign_day, hour, draw);
        &&& (forall|k: int| 0 <= k < cands.len() ==> #[trigger] cands[k] == from) ==> r == Err::<
            Vec<StrategicEvent>,
            ActionSkipReason,
        >(ActionSkipReason::NoReachableTarget) && post == pre
        &&& forall|k: int|
            #[trigger] first_other(cands, from, k) ==> exists|
                raised: ExpeditionState,
                roles: StrSet,
                comp: StrMap<u32>,
                rr: Result<crate::force::ForceId, ForceError>,
            |
                #![trigger raise_outcome(pre, raised, id, f, from, roles, comp, assignment_text(goal), geography, rr)]
                {
                    &&& roles@ == Set::<Seq<char>>::empty()
                    &&& comp.contents() == Map::<Seq<char>, u32>::empty().insert(FORCE_COMPOSITION_ACTOR_KEY@, FORCE_COMPOSITION_HEADS)
                    &&& comp@.len() == 1
                    &&& raise_outcome(pre, raised, id, f, from, roles, comp, assignment_text(goal), geography, rr)
                    &&& rr is Err ==> r == Err::<Vec<StrategicEvent>, ActionSkipReason>(ActionSkipReason::OrderRefused) && post == raised
                    &&& rr is Ok ==> ordered(raised, post, id, cands[k], geography, goal, r)
                }
    }
}

/// Goal::Expand and Goal::Pressure: send a body at the first border cell of
/// the chosen kind it does not already stand on. The body is this faction's
/// first force with no road left; where it has none standing, one is raised
/// on its first held cell, up to the limit of standing forces. The order goes
/// through `dispatch_force`, which refuses a destination it cannot route to.
#[verifier::rlimit(40)]
fn march(
    state: &mut ExpeditionState,
    view: &BoardView,
    geography: &Geography,
    goal: Goal,
    hour: u8,
    draw: u64,
    target: Target,
) -> (r: Result<Vec<StrategicEvent>, ActionSkipReason>)
    ensures
        acted_frame(*old(state), *final(state), view.faction_id@),
        marched(*old(state), *final(state), *view, *geography, goal, hour, draw, target == Target::Unheld, r),
        view.held.order().len() == 0 ==> (r matches Err(e) && e is NoHeldCell && *final(state) == *old(state)),
        r matches Ok(evs) ==> {
            &&& evs@.len() == 1
            &&& evs@[0] matches StrategicEvent::ForceDeparted { force_id, faction_id, from_cell_id, destination_cell_id, steps }
            &&& evs@[0]->ForceDeparted_faction_id@ == view.faction_id@
            &&& candidate_cells(*view, target == Target::Unheld).contains(evs@[0]->ForceDeparted_destination_cell_id@)
            &&& evs@[0]->ForceDeparted_destination_cell_id@ != evs@[0]->ForceDeparted_from_cell_id@
        },
{
    proof {
        lemma_acted_refl(*state, view.faction_id@);
        view.held.lemma_order();
        view.open_frontier.lemma_order();
    }
    let ghost pre = *state;
    let ghost fs = state.forces@;
    let ghost fc = state.forces.contents();
    let ghost f = view.faction_id@;
    let ghost cands = march_candidates(*view, target == Target::Unheld);
    if view.held.len() == 0 {
        return Err(ActionSkipReason::NoHeldCell);
    }
    let candidates: Vec<String> = match target {
        Target::Unheld => view.open_frontier.ids(),
        Target::Rival => view.contested_frontier.keys(),
    };
    proof {
        assert(candidates@.len() == cands.len());
        assert forall|i: int| 0 <= i < candidates@.len() implies #[trigger] candidates@[i]@ == cands[i] by {}
        assert forall|i: int| 0 <= i < candidates@.len() implies candidate_cells(*view, target == Target::Unheld).contains(
            #[trigger] candidates@[i]@,
        ) by {
            if target == Target::Rival {
                lemma_as_map_dom(view.contested_frontier@, candidates@[i]@);
            }
        }
    }
    if candidates.len() == 0 {
        return Err(ActionSkipReason::NoReachableTarget);
    }
    let mut standing: usize = 0;
    let mut idle: Option<String> = None;
    let ghost mut idle_j: int = -1;
    let mut i: usize = 0;
    while i < state.forces.len()
        invariant
            i <= state.forces@.len(),
            *state == pre,
            fs == state.forces@,
            fc == state.forces.contents(),
            f == view.faction_id@,
            standing <= i,
            standing == count_mine(fs, fc, f, i as int),
            idle is None ==> forall|j: int| 0 <= j < i ==> !#[trigger] idle_at(fs, fc, f, j),
            idle matches Some(k) ==> 0 <= idle_j < i && first_idle(fs, fc, f, idle_j) && k@ == fs[idle_j].0,
        decreases state.forces@.len() - i,
    {
        let key = state.forces.key_at(i);
        proof {
            lemma_as_map_dom(state.forces@, key@);
        }
        match state.forces.get(key.as_str()) {
            Some(force) => {
                if str_eq(force.faction_id.as_str(), view.faction_id.as_str()) {
                    standing = standing + 1;
                    if idle.is_none() && !force.is_marching() {
                        idle = Some(key.clone());
                        proof {
                            idle_j = i as int;
                        }
                    }
                }
            },
            None => {},
        }
        i = i + 1;
    }
    let from_cell_id = match &idle {
        Some(k) => match state.forces.get(k.as_str()) {
            Some(force) => force.position_cell_id.clone(),
            None => {
                return Err(ActionSkipReason::NoIdleForce);
            },
        },
        None => {
            if standing >= MAX_STANDING_FORCES_PER_FACTION {
                return Err(ActionSkipReason::NoIdleForce);
            }
            view.held.at(0).clone()
        },
    };
    let mut pick: Option<usize> = None;
    let mut c: usize = 0;
    while c < candidates.len()
        invariant_except_break
            pick is None,
        invariant
            c <= candidates@.len(),
            candidates@.len() == cands.len(),
            forall|j: int| 0 <= j < candidates@.len() ==> #[trigger] candidates@[j]@ == cands[j],
            forall|j: int| 0 <= j < c ==> #[trigger] cands[j] == from_cell_id@,
        ensures
            pick matches Some(k) ==> k < candidates@.len() && first_other(cands, from_cell_id@, k as int),
            pick is None ==> forall|j: int| 0 <= j < cands.len() ==> #[trigger] cands[j] == from_cell_id@,
        decreases candidates@.len() - c,
    {
        if !str_eq(candidates[c].as_str(), from_cell_id.as_str()) {
            pick = Some(c);
            break;
        }
        c = c + 1;
    }
    let destination = match pick {
        Some(k) => candidates[k].clone(),
        None => {
            return Err(ActionSkipReason::NoReachableTarget);
        },
    };
    let ghost k_pick = pick->0 as int;
    assert(first_other(cands, from_cell_id@, k_pick));
    assert(destination@ == cands[k_pick]);
    let ghost start = *state;
    let ghost idle_now = idle;
    let force_key = match idle {
        Some(k) => k,
        None => {
            let id = force_id(view.faction_id.as_str(), goal, state.campaign_day, hour, draw);
            let mut composition: StrMap<u32> = StrMap::new();
            composition.insert(owned(FORCE_COMPOSITION_ACTOR_KEY), FORCE_COMPOSITION_HEADS);
            let roles = StrSet::new();
            let ghost comp_g = composition;
            let ghost roles_g = roles;
            let rr = state.raise_force(
                id.as_str(),
                view.faction_id.as_str(),
                from_cell_id.as_str(),
                roles,
                composition,
                assignment_of(goal),
                geography,
            );
            let ghost rr_g = rr;
            proof {
                assert(comp_g.contents() =~= Map::<Seq<char>, u32>::empty().insert(FORCE_COMPOSITION_ACTOR_KEY@, FORCE_COMPOSITION_HEADS));
                assert(raise_outcome(pre, *state, id@, f, from_cell_id@, roles_g, comp_g, assignment_text(goal), *geography, rr_g));
            }
            match rr {
                Ok(_) => {},
                Err(_) => {
                    return Err(ActionSkipReason::OrderRefused);
                },
            }
            proof {
                assert(start.forces.contents().dom().subset_of(state.forces.contents().dom()));
                lemma_acted_refl(*state, view.faction_id@);
            }
            id
        },
    };
    let ghost raised = *state;
    proof {
        assert(acted_frame(start, raised, view.faction_id@)) by {
            assert forall|k: Seq<char>| #[trigger] start.factions.contents().contains_key(k) implies (if k == view.faction_id@ {
                raised.factions.contents()[k] == (FactionState { resources: raised.factions.contents()[k].resources, ..start.factions.contents()[k] })
            } else {
                raised.factions.contents()[k] == start.factions.contents()[k]
            }) by {}
            assert forall|k: Seq<char>| #[trigger] start.forces.contents().contains_key(k) && start.forces.contents()[k].faction_id@ != view.faction_id@
                implies raised.forces.contents()[k] == start.forces.contents()[k] by {
                if idle_now is None {
                    let nk = force_id_of(view.faction_id@, goal, start.campaign_day, hour, draw);
                    assert(k != nk);
                }
            }
        }
    }
    let dr = state.dispatch_force(force_key.as_str(), destination.as_str(), geography);
    let ghost dr_g = dr;
    let ghost sent = *state;
    assert(dispatch_outcome(raised, sent, force_key@, destination@, *geography, dr_g));
    let departed = match dr {
        Ok(e) => e,
        Err(_) => {
            return Err(ActionSkipReason::OrderRefused);
        },
    };
    match state.forces.get_mut(force_key.as_str()) {
        Some(force) => {
            force.assignment = owned(assignment_of(goal));
        },
        None => {},
    }
    proof {
        assert(acted_frame(raised, *state, view.faction_id@)) by {
            assert(state.forces.contents().dom() =~= raised.forces.contents().dom());
            assert forall|k: Seq<char>| #[trigger] raised.factions.contents().contains_key(k) implies (if k == view.faction_id@ {
                state.factions.contents()[k] == (FactionState { resources: state.factions.contents()[k].resources, ..raised.factions.contents()[k] })
            } else {
                state.factions.contents()[k] == raised.factions.contents()[k]
            }) by {}
            assert forall|k: Seq<char>| #[trigger] raised.forces.contents().contains_key(k) && raised.forces.contents()[k].faction_id@ != view.faction_id@
                implies state.forces.contents()[k] == raised.forces.contents()[k] by {
                if k == force_key@ {
                    assert(raised.forces.contents()[k].faction_id@ == view.faction_id@);
                }
            }
        }
        lemma_acted_trans(start, raised, *state, view.faction_id@);
        assert(assigned(sent, *state, force_key@, goal));
    }
    let mut events: Vec<StrategicEvent> = Vec::new();
    events.push(departed);
    proof {
        assert(events@ =~= seq![departed]);
    }
    Ok(events)
}

/// The one event an hour's goal leaves: the act it became, of the kind the
/// goal asks for, or a skip naming the goal.
pub open spec fn answers(e: StrategicEvent, g: Goal, faction_id: Seq<char>, day: u32) -> bool {
    ||| e matches StrategicEvent::ActionSkipped { faction_id: f, goal, day: d, .. } && f@ == faction_id && goal == g && d == day
    ||| g == Goal::Develop && (e matches StrategicEvent::BuildingStarted { faction_id: f, day: d, .. } && f@ == faction_id && d == day)
    ||| g == Goal::Recover && (e matches StrategicEvent::Gathered { faction_id: f, day: d, .. } && f@ == faction_id && d == day)
    ||| (g == Goal::Expand || g == Goal::Pressure) && (e matches StrategicEvent::ForceDeparted { faction_id: f, .. } && f@ == faction_id)
}

/// The one event a goal's outcome leaves: the act, or a skip naming the
/// faction, the goal, the reason and the day.
pub open spec fn reported(
    e: StrategicEvent,
    res: Result<Vec<StrategicEvent>, ActionSkipReason>,
    faction_id: Seq<char>,
    goal: Goal,
    day: u32,
) -> bool {
    match res {
        Ok(evs) => evs@.len() == 1 && e == evs@[0],
        Err(reason) => e matches StrategicEvent::ActionSkipped { faction_id: a, goal: g, reason: why, day: d } && a@ == faction_id
            && g == goal && why == reason && d == day,
    }
}

/// What one goal's act does, read off the board as it then stands.
pub open spec fn goal_outcome(
    pre: ExpeditionState,
    post: ExpeditionState,
    view: BoardView,
    goal: Goal,
    geography: Geography,
    buildings: BuildingDefinitions,
    day: u32,
    hour: u8,
    draws: HourDraws,
    res: Result<Vec<StrategicEvent>, ActionSkipReason>,
) -> bool {
    match goal {
        Goal::Develop => developed(pre, post, view, geography, buildings, day, hour, draws.economy, res),
        Goal::Recover => gathered(pre, post, view, day, res),
        Goal::Expand => marched(pre, post, view, geography, goal, hour, draws.force, true, res),
        Goal::Pressure => marched(pre, post, view, geography, goal, hour, draws.force, false, res),
        Goal::Consolidate | Goal::Withdraw => res == Err::<Vec<StrategicEvent>, ActionSkipReason>(ActionSkipReason::NoActionAuthoredYet)
            && post == pre,
    }
}

/// Acting on one goal: the faction's reading of the board as it stands,
/// that goal's act on it, and the one event it leaves.
pub open spec fn acted_on(
    pre: ExpeditionState,
    post: ExpeditionState,
    faction_id: Seq<char>,
    goal: Goal,
    geography: Geography,
    buildings: BuildingDefinitions,
    day: u32,
    hour: u8,
    draws: HourDraws,
    e: StrategicEvent,
) -> bool {
    exists|view: BoardView, res: Result<Vec<StrategicEvent>, ActionSkipReason>|
        #![trigger view_of(view, pre, faction_id, geography), goal_outcome(pre, post, view, goal, geography, buildings, day, hour, draws, res)]
        {
            &&& view_of(view, pre, faction_id, geography)
            &&& goal_outcome(pre, post, view, goal, geography, buildings, day, hour, draws, res)
            &&& reported(e, res, faction_id, goal, day)
        }
}

/// What one hour of a faction's acting on its goals does to the board
/// `start`, leaving `end` and reporting `events`.
pub open spec fn goals_acted(start: ExpeditionState, end: ExpeditionState, faction_id: Seq<char>, geography: Geography, buildings: BuildingDefinitions, draws: HourDraws, events: Seq<StrategicEvent>) -> bool {
    &&& (acted_frame(start, end, faction_id))
    &&& (faction_id == ConceptKey::Michael.id() || !start.factions.contents().contains_key(faction_id)
        || start.factions.contents()[faction_id].eliminated ==> events.len() == 0 && end == start)
    &&& (faction_id != ConceptKey::Michael.id() && start.factions.contents().contains_key(faction_id)
        && !start.factions.contents()[faction_id].eliminated ==> {
        let goals = start.factions.contents()[faction_id].current_goals@;
        &&& events.len() == goals.len()
        &&& exists|states: Seq<ExpeditionState>|
            {
                &&& states.len() == goals.len() + 1
                &&& states[0] == start
                &&& states[goals.len() as int] == end
                &&& forall|i: int|
                    0 <= i < goals.len() ==> acted_on(
                        states[i],
                        states[i + 1],
                        faction_id,
                        goals[i],
                        geography,
                        buildings,
                        start.campaign_day,
                        start.strategic_clock.hour_of_day,
                        draws,
                        #[trigger] events[i],
                    )
            }
        &&& forall|i: int|
            0 <= i < goals.len() ==> answers(#[trigger] events[i], goals[i], faction_id, start.campaign_day)
        &&& forall|i: int|
            0 <= i < goals.len() && (goals[i] == Goal::Consolidate || goals[i] == Goal::Withdraw) ==> (#[trigger] events[i] matches StrategicEvent::ActionSkipped {
                reason: ActionSkipReason::NoActionAuthoredYet,
                ..
            })
    })
}

/// One hour of one faction's acting: every goal it holds, in order, becomes
/// an act or a skip that names it. Captain Michael's faction is the
/// player's, and an eliminated faction is gone: neither acts. No act takes
/// ground, and none touches another faction.
#[verifier::rlimit(40)]
pub fn act_on_goals(
    state: &mut ExpeditionState,
    faction_id: &str,
    geography: &Geography,
    buildings: &BuildingDefinitions,
    draws: &HourDraws,
) -> (r: Vec<StrategicEvent>)
    ensures
        goals_acted(*old(state), *final(state), faction_id@, *geography, *buildings, *draws, r@),
{
    proof {
        lemma_acted_refl(*state, faction_id@);
    }
    let michael = ConceptKey::Michael.faction_id();
    if str_eq(faction_id, michael.as_str()) {
        return Vec::new();
    }
    let goals: Vec<Goal> = match state.factions.get(faction_id) {
        Some(f) => {
            if f.eliminated {
                return Vec::new();
            }
            let mut copy: Vec<Goal> = Vec::new();
            let mut k: usize = 0;
            while k < f.current_goals.len()
                invariant
                    k <= f.current_goals@.len(),
                    copy@ == f.current_goals@.take(k as int),
                decreases f.current_goals@.len() - k,
            {
                copy.push(f.current_goals[k]);
                proof {
                    assert(copy@ =~= f.current_goals@.take(k + 1));
                }
                k = k + 1;
            }
            proof {
                assert(copy@ =~= f.current_goals@);
            }
            copy
        },
        None => {
            return Vec::new();
        },
    };
    let day = state.campaign_day;
    let hour = state.strategic_clock.hour_of_day;
    let ghost start = *state;
    let mut events: Vec<StrategicEvent> = Vec::new();
    let ghost mut states: Seq<ExpeditionState> = seq![start];
    let mut i: usize = 0;
    while i < goals.len()
        invariant
            i <= goals@.len(),
            states.len() == i + 1,
            states[0] == start,
            states[i as int] == *state,
            forall|m: int|
                0 <= m < i ==> acted_on(
                    states[m],
                    states[m + 1],
                    faction_id@,
                    goals@[m],
                    *geography,
                    *buildings,
                    day,
                    hour,
                    *draws,
                    #[trigger] events@[m],
                ),
            hour == start.strategic_clock.hour_of_day,
            goals@ == start.factions.contents()[faction_id@].current_goals@,
            start.factions.contents().contains_key(faction_id@),
            acted_frame(start, *state, faction_id@),
            day == start.campaign_day,
            events@.len() == i,
            forall|m: int| 0 <= m < i ==> answers(#[trigger] events@[m], goals@[m], faction_id@, day),
            forall|m: int|
                0 <= m < i && (goals@[m] == Goal::Consolidate || goals@[m] == Goal::Withdraw) ==> (#[trigger] events@[m] matches StrategicEvent::ActionSkipped {
                    reason: ActionSkipReason::NoActionAuthoredYet,
                    ..
                }),
        decreases goals@.len() - i,
    {
        let goal = goals[i];
        let ghost pre = *state;
        let view = BoardView::of(faction_id, state, geography);
        let outcome = match goal {
            Goal::Develop => develop(state, &view, geography, buildings, day, hour, draws.economy),
            Goal::Recover => gather(state, &view, day),
            Goal::Expand => march(state, &view, geography, goal, hour, draws.force, Target::Unheld),
            Goal::Pressure => march(state, &view, geography, goal, hour, draws.force, Target::Rival),
            Goal::Consolidate => Err(ActionSkipReason::NoActionAuthoredYet),
            Goal::Withdraw => Err(ActionSkipReason::NoActionAuthoredYet),
        };
        proof {
            if goal == Goal::Consolidate || goal == Goal::Withdraw {
                lemma_acted_refl(*state, faction_id@);
            }
            lemma_acted_trans(start, pre, *state, faction_id@);
        }
        let ghost out_g = outcome;
        let ghost before_events = events@;
        proof {
            assert(goal_outcome(pre, *state, view, goal, *geography, *buildings, day, hour, *draws, out_g));
        }
        match outcome {
            Ok(acted) => {
                let mut acted = acted;
                events.append(&mut acted);
            },
            Err(reason) => {
                events.push(StrategicEvent::ActionSkipped { faction_id: owned(faction_id), goal, reason, day });
            },
        }
        proof {
            assert(events@[i as int] == events@[before_events.len() as int]);
            assert(reported(events@[i as int], out_g, faction_id@, goal, day));
            assert(view_of(view, pre, faction_id@, *geography));
            assert(acted_on(pre, *state, faction_id@, goal, *geography, *buildings, day, hour, *draws, events@[i as int]));
            assert forall|m: int| 0 <= m < i implies events@[m] == before_events[m] by {}
            states = states.push(*state);
        }
        i = i + 1;
    }
    proof {
        assert(states[goals@.len() as int] == *state);
    }
    events
}

} // verus!
