//! Offscreen forces: the island's bodies of troops while nobody is looking at
//! them. A force is an aggregate record, and it never teleports: the only
//! thing that changes its position is one hop along one real road out of the
//! cell it is standing in, paid for in that road's own minutes.

use vstd::prelude::*;

use crate::expedition::{invalid_id, is_stable_id, require_stable_id, ExpeditionError, ExpeditionState};
use crate::geography::{closer_road, connects, first_closer_road, has_location, holder, joined, named, names_road, usable, Geography, RouteOption};
use crate::keyed::{keys_of, StrMap, StrSet};
use crate::text::{owned, seq_starts_with, starts_with, str_eq};
use crate::tick::{hour_draws, strategic_draw_spec, StrategicEvent};

verus! {

/// The prefix every force ID carries.
pub const FORCE_ID_PREFIX: &'static str = "force.";

/// Minutes of marching one strategic hour buys a force.
pub const MINUTES_PER_STRATEGIC_HOUR: u32 = 60;

/// Readiness a freshly raised force stands at, and its ceiling.
pub const READINESS_FULL: u8 = 100;

/// What one hop costs a force in readiness. Provisional.
pub const READINESS_COST_PER_HOP: u8 = 2;

/// How far the hour's force draw may move readiness on a hop. Provisional.
pub const READINESS_DRAW_BAND: u8 = 1;

/// What one hop costs in supply on top of the road's own cost. Provisional.
pub const SUPPLY_COST_PER_HOP: u32 = 1;

/// Supply a force is raised with. Provisional.
pub const SUPPLY_ON_RAISE: u32 = 24;

/// Whether a force arriving on ground its holder is standing on can take it.
/// Needs decision, and `false` until that decision is made.
pub const CONTESTED_ARRIVAL_RESOLVES_CONTROL: bool = false;

/// The stable ID of one force: `force.<something>`.
#[derive(Clone, Debug, PartialEq, Eq, PartialOrd, Ord)]
pub struct ForceId(String);

impl View for ForceId {
    type V = Seq<char>;

    closed spec fn view(&self) -> Seq<char> {
        self.0@
    }
}

/// Whether a text is a force ID.
pub open spec fn force_id_ok(id: Seq<char>) -> bool {
    is_stable_id(id) && seq_starts_with(id, FORCE_ID_PREFIX@)
}

impl ForceId {
    /// Validates shape and the `force.` prefix; refuses rather than repairs.
    pub fn new(id: &str) -> (r: Result<Self, ForceError>)
        ensures
            r is Ok <==> force_id_ok(id@),
            r matches Ok(f) ==> f@ == id@,
            !is_stable_id(id@) ==> (r matches Err(ForceError::MalformedId(e)) && invalid_id(e, "force_id", id@)),
            is_stable_id(id@) && !seq_starts_with(id@, FORCE_ID_PREFIX@) ==> (r matches Err(
                ForceError::IdIsNotAForceId { found },
            ) && found@ == id@),
    {
        match require_stable_id("force_id", id) {
            Err(e) => return Err(ForceError::MalformedId(e)),
            Ok(()) => {},
        }
        if !starts_with(id, FORCE_ID_PREFIX) {
            return Err(ForceError::IdIsNotAForceId { found: owned(id) });
        }
        Ok(ForceId(owned(id)))
    }

    pub fn as_str(&self) -> (r: &str)
        ensures
            r@ == self@,
    {
        self.0.as_str()
    }

    /// An owned copy.
    pub fn duplicate(&self) -> (r: ForceId)
        ensures
            r@ == self@,
    {
        ForceId(self.0.clone())
    }

    /// The ID as a string.
    pub fn to_text(&self) -> (r: String)
        ensures
            r@ == self@,
    {
        self.0.clone()
    }
}

/// What the party could find of a force that is not in the room.
#[derive(Clone, Copy, Debug, PartialEq, Eq, Structural)]
pub enum ForceEvidence {
    Tracks,
    Smoke,
    Rumour,
    Sighting,
}

impl Default for ForceEvidence {
    fn default() -> (r: Self)
        ensures
            r == ForceEvidence::Tracks,
    {
        ForceEvidence::Tracks
    }
}

/// What went wrong raising or dispatching a force.
#[derive(Clone, Debug, PartialEq)]
pub enum ForceError {
    MalformedId(ExpeditionError),
    IdIsNotAForceId { found: String },
    DuplicateForce { id: String },
    UnknownForce { id: String },
    UnknownCell { cell_id: String },
    Unreachable { from: String, to: String },
    EmptyComposition { id: String },
}

/// One offscreen force.
#[derive(Clone, Debug, PartialEq)]
pub struct ForceRecord {
    pub id: ForceId,
    pub faction_id: String,
    pub roles: StrSet,
    /// What it is made of: actor-definition ID to how many of them.
    pub composition: StrMap<u32>,
    /// Derived from the composition by `recompute_strength`, its only writer.
    pub strength: u32,
    pub readiness: u8,
    pub supply: u32,
    pub origin_cell_id: String,
    /// Where it actually stands. Written only by a hop.
    pub position_cell_id: String,
    /// The road IDs still to be walked, front first.
    pub route: Vec<String>,
    pub destination_cell_id: Option<String>,
    pub assignment: String,
    /// Minutes of marching accrued toward the next road's cost.
    pub progress_minutes: u32,
    pub evidence: ForceEvidence,
}

/// Sum of the counts, saturating at the top of `u32`.
pub open spec fn saturating_total(s: Seq<(Seq<char>, u32)>) -> u32
    decreases s.len(),
{
    if s.len() == 0 {
        0
    } else {
        let rest = saturating_total(s.drop_last());
        if rest as int + s.last().1 as int > u32::MAX as int {
            u32::MAX
        } else {
            (rest + s.last().1) as u32
        }
    }
}

impl ForceRecord {
    /// The one writer of `strength`: the head count of the composition.
    pub fn recompute_strength(&mut self)
        ensures
            final(self).strength == saturating_total(old(self).composition@),
            *final(self) == (ForceRecord { strength: final(self).strength, ..*old(self) }),
    {
        let mut total: u32 = 0;
        let mut i: usize = 0;
        while i < self.composition.len()
            invariant
                i <= self.composition@.len(),
                total == saturating_total(self.composition@.take(i as int)),
            decreases self.composition@.len() - i,
        {
            proof {
                assert(self.composition@.take(i + 1).drop_last() =~= self.composition@.take(i as int));
            }
            total = total.saturating_add(*self.composition.value_at(i));
            i = i + 1;
        }
        proof {
            assert(self.composition@.take(self.composition@.len() as int) =~= self.composition@);
        }
        self.strength = total;
    }

    /// Whether this force has somewhere to be and road left.
    pub fn is_marching(&self) -> (r: bool)
        ensures
            r == (self.route@.len() > 0),
    {
        self.route.len() > 0
    }
}

/// Why a force stopped short of where it was sent.
#[derive(Clone, Copy, Debug, PartialEq, Eq, Structural)]
pub enum HaltReason {
    OutOfSupply,
    RouteMissing,
}

/// `ids` names a chain of roads, each leaving where the last one arrived,
/// from `from` to `to`; with `ungated`, none of them behind a gate.
pub open spec fn chain(roads: Seq<RouteOption>, ids: Seq<Seq<char>>, from: Seq<char>, to: Seq<char>, ungated: bool) -> bool
    decreases ids.len(),
{
    if ids.len() == 0 {
        from == to
    } else {
        exists|k: int|
            0 <= k < roads.len() && (#[trigger] roads[k]).id@ == ids[0] && roads[k].from_location_id@ == from
                && (ungated ==> roads[k].gate is None) && chain(roads, ids.drop_first(), roads[k].to_location_id@, to, ungated)
    }
}

/// An ungated chain of roads is a walk through no gates.
pub proof fn lemma_chain_connects(roads: Seq<RouteOption>, ids: Seq<Seq<char>>, from: Seq<char>, to: Seq<char>)
    requires
        chain(roads, ids, from, to, true),
    ensures
        connects(roads, Set::<Seq<char>>::empty(), from, to, ids.len()),
    decreases ids.len(),
{
    if ids.len() > 0 {
        let k = choose|k: int|
            0 <= k < roads.len() && (#[trigger] roads[k]).id@ == ids[0] && roads[k].from_location_id@ == from && roads[k].gate is None
                && chain(roads, ids.drop_first(), roads[k].to_location_id@, to, true);
        lemma_chain_connects(roads, ids.drop_first(), roads[k].to_location_id@, to);
        assert(usable(roads[k], Set::<Seq<char>>::empty()));
    }
}

/// A chain extended by one more ungated road.
pub proof fn lemma_chain_push(roads: Seq<RouteOption>, ids: Seq<Seq<char>>, from: Seq<char>, mid: Seq<char>, k: int, ungated: bool)
    requires
        chain(roads, ids, from, mid, ungated),
        0 <= k < roads.len(),
        roads[k].from_location_id@ == mid,
        ungated ==> roads[k].gate is None,
    ensures
        chain(roads, ids.push(roads[k].id@), from, roads[k].to_location_id@, ungated),
    decreases ids.len(),
{
    let to = roads[k].to_location_id@;
    if ids.len() == 0 {
        let single = ids.push(roads[k].id@);
        assert(single.drop_first() =~= Seq::<Seq<char>>::empty());
        assert(chain(roads, single.drop_first(), to, to, ungated));
    } else {
        let j = choose|j: int|
            0 <= j < roads.len() && (#[trigger] roads[j]).id@ == ids[0] && roads[j].from_location_id@ == from
                && (ungated ==> roads[j].gate is None) && chain(roads, ids.drop_first(), roads[j].to_location_id@, mid, ungated);
        lemma_chain_push(roads, ids.drop_first(), roads[j].to_location_id@, mid, k, ungated);
        assert(ids.push(roads[k].id@).drop_first() =~= ids.drop_first().push(roads[k].id@));
        assert(ids.push(roads[k].id@)[0] == ids[0]);
    }
}

/// Everything a force is made of survives: who it is, whose it is, what it
/// is for and what it is made of.
pub open spec fn whole_force(before: ForceRecord, after: ForceRecord) -> bool {
    &&& after.id == before.id
    &&& after.faction_id == before.faction_id
    &&& after.roles == before.roles
    &&& after.composition == before.composition
    &&& after.strength == before.strength
    &&& after.assignment == before.assignment
    &&& after.evidence == before.evidence
}

/// The forces standing in one cell, in order.
pub open spec fn standing_in(fs: Seq<(Seq<char>, ForceRecord)>, cell: Seq<char>) -> Seq<ForceRecord>
    decreases fs.len(),
{
    if fs.len() == 0 {
        Seq::empty()
    } else {
        let rest = standing_in(fs.drop_last(), cell);
        if fs.last().1.position_cell_id@ == cell {
            rest.push(fs.last().1)
        } else {
            rest
        }
    }
}

/// Some force of the holder's stands on the cell.
pub open spec fn defended(fs: Seq<(Seq<char>, ForceRecord)>, held: Option<Seq<char>>, cell: Seq<char>) -> bool {
    match held {
        Some(h) => exists|i: int|
            0 <= i < fs.len() && (#[trigger] fs[i]).1.position_cell_id@ == cell && fs[i].1.faction_id@ == h,
        None => false,
    }
}

/// Who holds each cell after a run of arrivals is resolved in order: an
/// arrival on a real cell that its faction does not already hold, and that no
/// body of the holder's defends, hands the cell to the arriving faction.
pub open spec fn ownership_after(
    g: Geography,
    own: Map<Seq<char>, String>,
    fs: Seq<(Seq<char>, ForceRecord)>,
    evs: Seq<StrategicEvent>,
) -> Map<Seq<char>, String>
    decreases evs.len(),
{
    if evs.len() == 0 {
        own
    } else {
        let o = ownership_after(g, own, fs, evs.drop_last());
        match evs.last() {
            StrategicEvent::ForceArrived { faction_id, cell_id, .. } => {
                let held = holder(g, o, cell_id@);
                if held != Some(faction_id@) && !defended(fs, held, cell_id@) && has_location(g, cell_id@)
                    && is_stable_id(faction_id@) {
                    o.insert(cell_id@, faction_id)
                } else {
                    o
                }
            },
            _ => o,
        }
    }
}

/// The IDs of the holder's forces standing on a cell, among the first `n`
/// entries, in order.
pub open spec fn defender_ids(fs: Seq<(Seq<char>, ForceRecord)>, holder_id: Seq<char>, cell: Seq<char>, n: int) -> Seq<Seq<char>>
    decreases n,
{
    if n <= 0 {
        Seq::empty()
    } else {
        let rest = defender_ids(fs, holder_id, cell, n - 1);
        let f = fs[n - 1].1;
        if f.position_cell_id@ == cell && f.faction_id@ == holder_id {
            rest.push(f.id@)
        } else {
            rest
        }
    }
}

/// The report of an arrival on ground a body of the holder's stands on:
/// who arrived, where, who holds it, and every one of the holder's forces
/// standing there.
pub open spec fn contested_report(
    e: StrategicEvent,
    force_id: ForceId,
    faction_id: Seq<char>,
    cell: Seq<char>,
    holder_id: Seq<char>,
    fs: Seq<(Seq<char>, ForceRecord)>,
    day: u32,
) -> bool {
    e matches StrategicEvent::ArrivalContested { force_id: a, faction_id: b, cell_id: c, held_by: h, defender_force_ids: ds, day: d }
        && a@ == force_id@ && b@ == faction_id && c@ == cell && h@ == holder_id && ds@.map_values(|x: ForceId| x@) == defender_ids(
        fs,
        holder_id,
        cell,
        fs.len() as int,
    ) && d == day
}

/// The report of an arrival that takes the ground: who took it, where, from
/// whom, and every building standing on it.
pub open spec fn taken_report(
    e: StrategicEvent,
    force_id: ForceId,
    faction_id: Seq<char>,
    cell: Seq<char>,
    held: Option<Seq<char>>,
    bs: Seq<(Seq<char>, crate::building::BuildingInstance)>,
    day: u32,
) -> bool {
    e matches StrategicEvent::ControlTaken { force_id: a, faction_id: b, cell_id: c, from: fr, building_instance_ids: ids, day: d }
        && a@ == force_id@ && b@ == faction_id && c@ == cell && (match fr {
        Some(x) => held == Some(x@),
        None => held is None,
    }) && ids@.map_values(|x: String| x@) == crate::building::on_cell(bs, cell).map_values(|b: crate::building::BuildingInstance| b.id@)
        && d == day
}

/// The reports a run of arrivals leaves, resolved in order against the
/// ground as the earlier ones left it: nothing for coming home; a contest
/// where a body of the holder's stands; a handover where the ground is the
/// graph's and the arriving faction's ID is sound; nothing otherwise.
pub open spec fn arrival_reports(
    g: Geography,
    own: Map<Seq<char>, String>,
    fs: Seq<(Seq<char>, ForceRecord)>,
    bs: Seq<(Seq<char>, crate::building::BuildingInstance)>,
    evs: Seq<StrategicEvent>,
    day: u32,
    r: Seq<StrategicEvent>,
) -> bool
    decreases evs.len(),
{
    if evs.len() == 0 {
        r.len() == 0
    } else {
        let rest = evs.drop_last();
        let o = ownership_after(g, own, fs, rest);
        match evs.last() {
            StrategicEvent::ForceArrived { force_id, faction_id, cell_id, .. } => {
                let held = holder(g, o, cell_id@);
                if held == Some(faction_id@) {
                    arrival_reports(g, own, fs, bs, rest, day, r)
                } else if defended(fs, held, cell_id@) {
                    r.len() > 0 && arrival_reports(g, own, fs, bs, rest, day, r.drop_last()) && contested_report(
                        r.last(),
                        force_id,
                        faction_id@,
                        cell_id@,
                        held->0,
                        fs,
                        day,
                    )
                } else if has_location(g, cell_id@) && is_stable_id(faction_id@) {
                    r.len() > 0 && arrival_reports(g, own, fs, bs, rest, day, r.drop_last()) && taken_report(
                        r.last(),
                        force_id,
                        faction_id@,
                        cell_id@,
                        held,
                        bs,
                        day,
                    )
                } else {
                    arrival_reports(g, own, fs, bs, rest, day, r)
                }
            },
            _ => arrival_reports(g, own, fs, bs, rest, day, r),
        }
    }
}

/// Readiness after one hop: the constant cost, then the draw's nudge inside
/// the band, never past the ceiling.
pub open spec fn readiness_after(readiness: u8, draw: u64) -> u8 {
    let marched = if readiness > READINESS_COST_PER_HOP { (readiness - READINESS_COST_PER_HOP) as u8 } else { 0u8 };
    if draw % 3 == 0 {
        if marched > READINESS_DRAW_BAND { (marched - READINESS_DRAW_BAND) as u8 } else { 0u8 }
    } else if draw % 3 == 1 {
        marched
    } else {
        let up = (marched + READINESS_DRAW_BAND) as int;
        if up > READINESS_FULL as int { READINESS_FULL } else { up as u8 }
    }
}

fn readiness_after_a_hop(readiness: u8, draw: u64) -> (r: u8)
    ensures
        r == readiness_after(readiness, draw),
{
    let after_marching = readiness.saturating_sub(READINESS_COST_PER_HOP);
    let nudge = draw % 3;
    if nudge == 0 {
        after_marching.saturating_sub(READINESS_DRAW_BAND)
    } else if nudge == 1 {
        after_marching
    } else {
        let up = after_marching.saturating_add(READINESS_DRAW_BAND);
        if up > READINESS_FULL { READINESS_FULL } else { up }
    }
}

/// What a hop off this road costs in supply.
pub open spec fn hop_cost(r: RouteOption) -> u32 {
    if r.supply_cost as int + SUPPLY_COST_PER_HOP as int > u32::MAX as int {
        u32::MAX
    } else {
        (r.supply_cost + SUPPLY_COST_PER_HOP) as u32
    }
}

fn supply_cost_of(route: &RouteOption) -> (r: u32)
    ensures
        r == hop_cost(*route),
{
    route.supply_cost.saturating_add(SUPPLY_COST_PER_HOP)
}

/// The chain of real, ungated roads from `from` to `to`, planned one shortest
/// step at a time from each cell the previous step lands in. Found, and no
/// longer than any, whenever a walk through the graph's cells of at most the
/// longest representable number of roads leads there.
fn plan_route(geography: &Geography, from: &str, to: &str) -> (r: Result<Vec<String>, ForceError>)
    ensures
        r matches Ok(route) ==> chain(geography.routes@, route@.map_values(|s: String| s@), from@, to@, true),
        r matches Err(e) ==> (e matches ForceError::Unreachable { from: f, to: t } && f@ == from@ && t@ == to@),
        forall|n: nat|
            n <= u32::MAX && #[trigger] joined(*geography, Set::<Seq<char>>::empty(), from@, to@, n) ==> (r matches Ok(route)
                && route@.len() <= n),
{
    let no_gates = StrSet::new();
    let mut route: Vec<String> = Vec::new();
    proof {
        assert(route@.map_values(|s: String| s@) =~= Seq::<Seq<char>>::empty());
    }
    if str_eq(from, to) {
        return Ok(route);
    }
    let ghost reachable = exists|n: nat| n <= u32::MAX && #[trigger] joined(*geography, Set::<Seq<char>>::empty(), from@, to@, n);
    let w = match geography.step_distance(from, to, &no_gates) {
        Some(w) => w,
        None => {
            return Err(ForceError::Unreachable { from: owned(from), to: owned(to) });
        },
    };
    proof {
        if reachable {
            let n = choose|n: nat| n <= u32::MAX && #[trigger] joined(*geography, Set::<Seq<char>>::empty(), from@, to@, n);
            assert(w <= n);
        }
    }
    let mut standing = owned(from);
    let ghost mut left: nat = w as nat;
    let fuel: usize = w as usize;
    let mut steps: usize = 0;
    while !str_eq(standing.as_str(), to)
        invariant
            steps <= fuel,
            fuel == w,
            no_gates@ == Set::<Seq<char>>::empty(),
            route@.len() == steps,
            chain(geography.routes@, route@.map_values(|s: String| s@), from@, standing@, true),
            reachable ==> joined(*geography, Set::<Seq<char>>::empty(), standing@, to@, left) && steps + left <= w,
            reachable == exists|n: nat| n <= u32::MAX && #[trigger] joined(*geography, Set::<Seq<char>>::empty(), from@, to@, n),
            reachable ==> forall|n: nat| n <= u32::MAX && #[trigger] joined(*geography, Set::<Seq<char>>::empty(), from@, to@, n) ==> w <= n,
        decreases fuel - steps,
    {
        if steps >= fuel {
            proof {
                if reachable {
                    assert(left == 0);
                    assert(standing@ == to@);
                }
                assert(!reachable);
            }
            return Err(ForceError::Unreachable { from: owned(from), to: owned(to) });
        }
        let step = match geography.next_step_toward(standing.as_str(), to, &no_gates) {
            Some(s) => s,
            None => {
                proof {
                    if reachable {
                        assert(joined(*geography, Set::<Seq<char>>::empty(), standing@, to@, left));
                        assert(left <= u32::MAX);
                    }
                    assert(!reachable);
                }
                return Err(ForceError::Unreachable { from: owned(from), to: owned(to) });
            },
        };
        proof {
            let k = choose|k: int| 0 <= k < geography.routes@.len() && geography.routes@[k] == *step;
            assert(step.gate is None) by {
                if step.gate is Some {
                    assert(!usable(*step, no_gates@));
                }
            }
            lemma_chain_push(geography.routes@, route@.map_values(|s: String| s@), from@, standing@, k, true);
        }
        let ghost before = route@;
        let ghost next_left: nat = choose|m: nat|
            m < u32::MAX && #[trigger] joined(*geography, Set::<Seq<char>>::empty(), step.to_location_id@, to@, m) && forall|n: nat|
                #[trigger] joined(*geography, Set::<Seq<char>>::empty(), standing@, to@, n) ==> m < n;
        proof {
            let j = choose|j: int| first_closer_road(*geography, no_gates@, standing@, to@, j) && #[trigger] geography.routes@[j] == *step;
            assert(closer_road(*geography, Set::<Seq<char>>::empty(), standing@, to@, j));
            if reachable {
                assert(next_left < left);
            }
        }
        route.push(step.id.clone());
        proof {
            assert(route@.map_values(|s: String| s@) =~= before.map_values(|s: String| s@).push(step.id@));
        }
        standing = step.to_location_id.clone();
        steps = steps + 1;
        proof {
            left = next_left;
        }
    }
    Ok(route)
}

/// What raising does: refuses, leaving the campaign as it was, unless the
/// ID is a new `force.` ID, the faction ID is a stable ID, the cell is the
/// graph's and the body has somebody in it; otherwise one record more, under
/// that ID, standing on the cell with no orders, full readiness, the supply
/// a raised force carries, and the strength its composition sums to.
pub open spec fn raise_outcome(
    pre: ExpeditionState,
    post: ExpeditionState,
    force_id: Seq<char>,
    faction_id: Seq<char>,
    cell_id: Seq<char>,
    roles: StrSet,
    composition: StrMap<u32>,
    assignment: Seq<char>,
    geography: Geography,
    r: Result<ForceId, ForceError>,
) -> bool {
    &&& r is Err ==> post == pre
    &&& r is Ok <==> force_id_ok(force_id) && is_stable_id(faction_id) && !pre.forces.contents().contains_key(force_id) && has_location(
        geography,
        cell_id,
    ) && exists|i: int| 0 <= i < composition@.len() && (#[trigger] composition@[i]).1 != 0
    &&& force_id_ok(force_id) && is_stable_id(faction_id) && pre.forces.contents().contains_key(force_id) ==> (r matches Err(
        ForceError::DuplicateForce { id },
    ) && id@ == force_id)
    &&& force_id_ok(force_id) && is_stable_id(faction_id) && !pre.forces.contents().contains_key(force_id) && !has_location(
        geography,
        cell_id,
    ) ==> (r matches Err(ForceError::UnknownCell { cell_id: c }) && c@ == cell_id)
    &&& !is_stable_id(force_id) ==> (r matches Err(ForceError::MalformedId(e)) && invalid_id(e, "force_id", force_id))
    &&& is_stable_id(force_id) && !seq_starts_with(force_id, FORCE_ID_PREFIX@) ==> (r matches Err(ForceError::IdIsNotAForceId { found })
        && found@ == force_id)
    &&& force_id_ok(force_id) && !is_stable_id(faction_id) ==> (r matches Err(ForceError::MalformedId(e)) && invalid_id(
        e,
        "faction_id",
        faction_id,
    ))
    &&& force_id_ok(force_id) && is_stable_id(faction_id) && !pre.forces.contents().contains_key(force_id) && has_location(geography, cell_id)
        && !(exists|i: int| 0 <= i < composition@.len() && (#[trigger] composition@[i]).1 != 0) ==> (r matches Err(
        ForceError::EmptyComposition { id },
    ) && id@ == force_id)
    &&& r matches Ok(id) ==> {
        let f = post.forces.contents()[force_id];
        &&& id@ == force_id
        &&& post.forces.contents().dom() == pre.forces.contents().dom().insert(force_id)
        &&& forall|k: Seq<char>| k != force_id && #[trigger] pre.forces.contents().contains_key(k) ==> post.forces.contents()[k]
            == pre.forces.contents()[k]
        &&& f.id@ == force_id
        &&& f.faction_id@ == faction_id
        &&& f.roles == roles
        &&& f.composition == composition
        &&& f.strength == saturating_total(composition@)
        &&& f.readiness == READINESS_FULL
        &&& f.supply == SUPPLY_ON_RAISE
        &&& f.origin_cell_id@ == cell_id
        &&& f.position_cell_id@ == cell_id
        &&& f.route@.len() == 0
        &&& f.destination_cell_id is None
        &&& f.assignment@ == assignment
        &&& f.progress_minutes == 0
        &&& f.evidence == ForceEvidence::Tracks
        &&& post == (ExpeditionState { forces: post.forces, ..pre })
    }
}

/// What dispatching does: refuses, leaving the campaign as it was, a force
/// the campaign does not carry and a cell the graph does not know;
/// otherwise, where a plan is found, the force's orders become that plan —
/// a chain of ungated roads from where it stands to the destination — and
/// nothing else about it or the campaign moves.
pub open spec fn dispatch_outcome(
    pre: ExpeditionState,
    post: ExpeditionState,
    force_id: Seq<char>,
    destination_cell_id: Seq<char>,
    geography: Geography,
    r: Result<StrategicEvent, ForceError>,
) -> bool {
    &&& r is Err ==> post == pre
    &&& !pre.forces.contents().contains_key(force_id) ==> (r matches Err(ForceError::UnknownForce { id }) && id@ == force_id)
    &&& pre.forces.contents().contains_key(force_id) && !has_location(geography, destination_cell_id) ==> (r matches Err(
        ForceError::UnknownCell { cell_id },
    ) && cell_id@ == destination_cell_id)
    &&& r is Ok ==> pre.forces.contents().contains_key(force_id) && has_location(geography, destination_cell_id)
    &&& pre.forces.contents().contains_key(force_id) && has_location(geography, destination_cell_id) && r is Err ==> (r matches Err(
        ForceError::Unreachable { from, to },
    ) && from@ == pre.forces.contents()[force_id].position_cell_id@ && to@ == destination_cell_id)
    &&& pre.forces.contents().contains_key(force_id) && has_location(geography, destination_cell_id) && !(exists|n: nat|
        connects(geography.routes@, Set::<Seq<char>>::empty(), pre.forces.contents()[force_id].position_cell_id@, destination_cell_id, n))
        ==> r is Err
    &&& pre.forces.contents().contains_key(force_id) && has_location(geography, destination_cell_id) ==> forall|n: nat|
        n <= u32::MAX && #[trigger] joined(
            geography,
            Set::<Seq<char>>::empty(),
            pre.forces.contents()[force_id].position_cell_id@,
            destination_cell_id,
            n,
        ) ==> r is Ok && post.forces.contents()[force_id].route@.len() <= n
    &&& r matches Ok(ev) ==> {
        let before = pre.forces.contents()[force_id];
        let after = post.forces.contents()[force_id];
        &&& post.forces.contents() == pre.forces.contents().insert(force_id, after)
        &&& whole_force(before, after)
        &&& after.origin_cell_id@ == before.position_cell_id@
        &&& after.position_cell_id == before.position_cell_id
        &&& after.destination_cell_id matches Some(d) && d@ == destination_cell_id
        &&& after.progress_minutes == 0
        &&& after.supply == before.supply
        &&& after.readiness == before.readiness
        &&& chain(geography.routes@, after.route@.map_values(|s: String| s@), before.position_cell_id@, destination_cell_id, true)
        &&& ev matches StrategicEvent::ForceDeparted { force_id: fid, faction_id, from_cell_id, destination_cell_id: d, steps }
            && fid@ == before.id@ && faction_id@ == before.faction_id@ && from_cell_id@ == before.position_cell_id@
            && d@ == destination_cell_id && steps == after.route@.len()
        &&& post == (ExpeditionState { forces: post.forces, ..pre })
    }
}

impl ExpeditionState {
    /// Raise a force: the point at which a body of actors becomes one record.
    /// It stands where it is raised, with no orders. Refuses, before changing
    /// anything and in this order: a malformed or non-`force.` ID, a malformed
    /// faction ID, an ID already carried, a cell the graph does not know, and
    /// a composition with nobody in it.
    pub fn raise_force(
        &mut self,
        force_id: &str,
        faction_id: &str,
        cell_id: &str,
        roles: StrSet,
        composition: StrMap<u32>,
        assignment: &str,
        geography: &Geography,
    ) -> (r: Result<ForceId, ForceError>)
        ensures
            raise_outcome(*old(self), *final(self), force_id@, faction_id@, cell_id@, roles, composition, assignment@, *geography, r),
    {
        let id = match ForceId::new(force_id) {
            Err(e) => return Err(e),
            Ok(id) => id,
        };
        match require_stable_id("faction_id", faction_id) {
            Err(e) => return Err(ForceError::MalformedId(e)),
            Ok(()) => {},
        }
        if self.forces.contains_key(force_id) {
            return Err(ForceError::DuplicateForce { id: owned(force_id) });
        }
        if geography.location(cell_id).is_none() {
            return Err(ForceError::UnknownCell { cell_id: owned(cell_id) });
        }
        let mut anyone = false;
        let mut i: usize = 0;
        while i < composition.len()
            invariant
                i <= composition@.len(),
                anyone == exists|j: int| 0 <= j < i && (#[trigger] composition@[j]).1 != 0,
            decreases composition@.len() - i,
        {
            if *composition.value_at(i) != 0 {
                anyone = true;
            }
            i = i + 1;
        }
        if !anyone {
            return Err(ForceError::EmptyComposition { id: owned(force_id) });
        }
        let mut record = ForceRecord {
            id: id.duplicate(),
            faction_id: owned(faction_id),
            roles,
            composition,
            strength: 0,
            readiness: READINESS_FULL,
            supply: SUPPLY_ON_RAISE,
            origin_cell_id: owned(cell_id),
            position_cell_id: owned(cell_id),
            route: Vec::new(),
            destination_cell_id: None,
            assignment: owned(assignment),
            progress_minutes: 0,
            evidence: ForceEvidence::Tracks,
        };
        record.recompute_strength();
        self.forces.insert(owned(force_id), record);
        proof {
            assert(final(self).forces.contents().dom() =~= old(self).forces.contents().dom().insert(force_id@));
        }
        Ok(id)
    }

    /// Send a force somewhere, planning the whole road now over ungated roads
    /// only: a force plans with its own faction's knowledge, never the
    /// party's. Refuses, before changing anything, an unknown force, an
    /// unknown destination, and a destination no chain of roads reaches.
    /// Returns the departure for the caller to journal.
    pub fn dispatch_force(&mut self, force_id: &str, destination_cell_id: &str, geography: &Geography) -> (r: Result<StrategicEvent, ForceError>)
        ensures
            dispatch_outcome(*old(self), *final(self), force_id@, destination_cell_id@, *geography, r),
    {
        let force = match self.forces.get(force_id) {
            Some(f) => f,
            None => return Err(ForceError::UnknownForce { id: owned(force_id) }),
        };
        if geography.location(destination_cell_id).is_none() {
            return Err(ForceError::UnknownCell { cell_id: owned(destination_cell_id) });
        }
        let route = match plan_route(geography, force.position_cell_id.as_str(), destination_cell_id) {
            Err(e) => return Err(e),
            Ok(r) => r,
        };
        let steps: u32 = if route.len() > u32::MAX as usize { u32::MAX } else { route.len() as u32 };
        let ghost route_view = route@;
        proof {
            lemma_chain_connects(geography.routes@, route@.map_values(|x: String| x@), force.position_cell_id@, destination_cell_id@);
        }
        if route.len() > u32::MAX as usize {
            return Err(ForceError::Unreachable { from: force.position_cell_id.clone(), to: owned(destination_cell_id) });
        }
        let departed = StrategicEvent::ForceDeparted {
            force_id: force.id.duplicate(),
            faction_id: force.faction_id.clone(),
            from_cell_id: force.position_cell_id.clone(),
            destination_cell_id: owned(destination_cell_id),
            steps,
        };
        match self.forces.get_mut(force_id) {
            Some(f) => {
                f.origin_cell_id = f.position_cell_id.clone();
                f.destination_cell_id = Some(owned(destination_cell_id));
                f.route = route;
                f.progress_minutes = 0;
            },
            None => {},
        }
        Ok(departed)
    }

    /// Which forces are standing in this cell right now, in order. A force in
    /// transit stands in the cell it last hopped into.
    pub fn forces_at(&self, cell_id: &str) -> (r: Vec<&ForceRecord>)
        ensures
            r@.map_values(|f: &ForceRecord| *f) == standing_in(self.forces@, cell_id@),
    {
        let ghost fs = self.forces@;
        let mut r: Vec<&ForceRecord> = Vec::new();
        let mut i: usize = 0;
        while i < self.forces.len()
            invariant
                i <= fs.len(),
                fs == self.forces@,
                r@.map_values(|f: &ForceRecord| *f) == standing_in(fs.take(i as int), cell_id@),
            decreases fs.len() - i,
        {
            proof {
                assert(fs.take(i + 1).drop_last() =~= fs.take(i as int));
            }
            let f = self.forces.value_at(i);
            if str_eq(f.position_cell_id.as_str(), cell_id) {
                r.push(f);
            }
            proof {
                assert(r@.map_values(|f: &ForceRecord| *f) =~= standing_in(fs.take(i + 1), cell_id@));
            }
            i = i + 1;
        }
        proof {
            assert(fs.take(fs.len() as int) =~= fs);
        }
        r
    }
}

/// One hour of marching, as far as the force's record shows it: it is still
/// the same body; some `k` roads off the front of its route were walked, in
/// order, from where it stood to where it stands; each cost at least one
/// supply; and a force that ran out of road has arrived, with its progress
/// cleared and no destination left.
pub open spec fn hour_marched(roads: Seq<RouteOption>, before: ForceRecord, after: ForceRecord, draw: u64) -> bool {
    &&& whole_force(before, after)
    &&& after.origin_cell_id == before.origin_cell_id
    &&& exists|k: int|
        #![trigger before.route@.skip(k)]
        0 <= k <= before.route@.len() && after.route@ == before.route@.skip(k) && walked(roads, before, after, draw, k)
    &&& (after.route@.len() == 0 && before.route@.len() > 0) ==> (after.progress_minutes == 0 && after.destination_cell_id is None)
    &&& after.route@.len() > 0 ==> after.destination_cell_id == before.destination_cell_id
}

/// Minutes the first `k` roads of a route take, each looked up by its ID.
pub open spec fn hop_minutes(roads: Seq<RouteOption>, ids: Seq<String>, k: int) -> int
    decreases k,
{
    if k <= 0 {
        0
    } else {
        hop_minutes(roads, ids, k - 1) + named(roads, ids[k - 1]@).time_cost_minutes
    }
}

/// Supply the first `k` hops of a route cost.
pub open spec fn hop_supply(roads: Seq<RouteOption>, ids: Seq<String>, k: int) -> int
    decreases k,
{
    if k <= 0 {
        0
    } else {
        hop_supply(roads, ids, k - 1) + hop_cost(named(roads, ids[k - 1]@))
    }
}

/// What the first `k` roads of a route charge as their authors set them:
/// each road its own supply cost plus the per-hop cost, one road's charge
/// capped at the largest supply a force can carry.
pub open spec fn authored_charges(roads: Seq<RouteOption>, ids: Seq<String>, k: int) -> int
    decreases k,
{
    if k <= 0 {
        0
    } else {
        let r = named(roads, ids[k - 1]@);
        authored_charges(roads, ids, k - 1) + if r.supply_cost as int + SUPPLY_COST_PER_HOP as int > u32::MAX as int {
            u32::MAX as int
        } else {
            r.supply_cost as int + SUPPLY_COST_PER_HOP as int
        }
    }
}

proof fn lemma_hop_supply_authored(roads: Seq<RouteOption>, ids: Seq<String>, k: int)
    ensures
        hop_supply(roads, ids, k) == authored_charges(roads, ids, k),
    decreases k,
{
    if k > 0 {
        lemma_hop_supply_authored(roads, ids, k - 1);
    }
}

/// A marching hour charges each road walked its authored supply cost plus
/// the per-hop cost: the force ends the hour with its supply less exactly
/// those charges for the roads it walked off the front of its route. A force
/// whose supply cannot cover a road's charge therefore never walks it.
pub proof fn lemma_marching_charges_authored_supply(roads: Seq<RouteOption>, before: ForceRecord, after: ForceRecord, draw: u64)
    requires
        hour_marched(roads, before, after, draw),
    ensures
        exists|k: int|
            #![trigger before.route@.skip(k)]
            0 <= k <= before.route@.len() && after.route@ == before.route@.skip(k) && after.supply as int == before.supply as int
                - authored_charges(roads, before.route@, k),
{
    let k = choose|k: int|
        #![trigger before.route@.skip(k)]
        0 <= k <= before.route@.len() && after.route@ == before.route@.skip(k) && walked(roads, before, after, draw, k);
    lemma_hop_supply_authored(roads, before.route@, k);
}

/// Readiness after `k` hops on one hour's draw.
pub open spec fn readiness_after_hops(readiness: u8, draw: u64, k: nat) -> u8
    decreases k,
{
    if k == 0 {
        readiness
    } else {
        readiness_after(readiness_after_hops(readiness, draw, (k - 1) as nat), draw)
    }
}

/// The marching hour as it stands after `k` hops off the front of the route:
/// every road walked is one the graph carries, the force stands at the far
/// end of the last one (where it was, with none), and it has paid for each
/// in minutes, supply and readiness.
pub open spec fn walked(roads: Seq<RouteOption>, before: ForceRecord, after: ForceRecord, draw: u64, k: int) -> bool {
    let clock = if before.progress_minutes as int + MINUTES_PER_STRATEGIC_HOUR as int > u32::MAX as int {
        u32::MAX as int
    } else {
        before.progress_minutes as int + MINUTES_PER_STRATEGIC_HOUR as int
    };
    &&& forall|i: int| 0 <= i < k ==> names_road(roads, (#[trigger] before.route@[i])@)
    &&& after.position_cell_id@ == (if k == 0 {
        before.position_cell_id@
    } else {
        named(roads, before.route@[k - 1]@).to_location_id@
    })
    &&& after.supply as int == before.supply as int - hop_supply(roads, before.route@, k)
    &&& after.readiness == readiness_after_hops(before.readiness, draw, k as nat)
    &&& (after.route@.len() > 0 ==> after.progress_minutes as int == clock - hop_minutes(roads, before.route@, k))
}

/// `e` reports hop `i` of `f`'s route: the force, its faction, the road and
/// the two cells it joins.
pub open spec fn moved_event(roads: Seq<RouteOption>, f: ForceRecord, i: int, e: StrategicEvent) -> bool {
    let road = named(roads, f.route@[i]@);
    e matches StrategicEvent::ForceMoved { force_id, faction_id, route_id, from_cell_id, to_cell_id } && force_id@ == f.id@
        && faction_id@ == f.faction_id@ && route_id@ == road.id@ && from_cell_id@ == road.from_location_id@ && to_cell_id@
        == road.to_location_id@
}

/// `e` halts `f` where `after` stands, for `reason`.
pub open spec fn halted_event(f: ForceRecord, after: ForceRecord, reason: HaltReason, e: StrategicEvent) -> bool {
    e matches StrategicEvent::ForceHalted { force_id, faction_id, cell_id, reason: why } && force_id@ == f.id@ && faction_id@
        == f.faction_id@ && cell_id@ == after.position_cell_id@ && why == reason
}

/// What one force's marching hour reports, after `k` hops: one event per
/// hop, then why it stopped. It arrives, carrying its whole composition,
/// when the route is walked to the end; it halts when the next road is not
/// on the graph or the next hop costs more supply than it has; and it waits,
/// saying nothing more, when the next road takes more minutes than it has
/// marched.
pub open spec fn hour_reported(roads: Seq<RouteOption>, before: ForceRecord, after: ForceRecord, k: int, events: Seq<StrategicEvent>) -> bool {
    &&& k <= events.len()
    &&& forall|i: int| 0 <= i < k ==> moved_event(roads, before, i, #[trigger] events[i])
    &&& if k == before.route@.len() {
        &&& events.len() == k + 1
        &&& events[k] matches StrategicEvent::ForceArrived { force_id, faction_id, cell_id, composition, strength, readiness, supply }
        &&& events[k]->ForceArrived_force_id@ == before.id@
        &&& events[k]->ForceArrived_faction_id@ == before.faction_id@
        &&& events[k]->ForceArrived_cell_id@ == after.position_cell_id@
        &&& events[k]->ForceArrived_composition@ == before.composition@
        &&& events[k]->ForceArrived_strength == before.strength
        &&& events[k]->ForceArrived_readiness == after.readiness
        &&& events[k]->ForceArrived_supply == after.supply
    } else if !names_road(roads, before.route@[k]@) {
        events.len() == k + 1 && halted_event(before, after, HaltReason::RouteMissing, events[k])
    } else if after.progress_minutes < named(roads, before.route@[k]@).time_cost_minutes {
        events.len() == k
    } else {
        &&& after.supply < hop_cost(named(roads, before.route@[k]@))
        &&& events.len() == k + 1
        &&& halted_event(before, after, HaltReason::OutOfSupply, events[k])
    }
}

/// What marching reports: hops, halts and arrivals, nothing else.
pub open spec fn march_event(e: StrategicEvent) -> bool {
    e is ForceMoved || e is ForceHalted || e is ForceArrived
}

/// One force's hour: `MINUTES_PER_STRATEGIC_HOUR` more marching, then as many
/// hops as it has paid for along the front of its route. A road the graph
/// does not carry, or a hop the force cannot pay supply for, halts it where
/// it stands; it neither vanishes nor jumps.
impl ForceRecord {
    fn march_one_hour(&mut self, geography: &Geography, draw: u64) -> (r: Vec<StrategicEvent>)
        requires
            old(self).route@.len() > 0,
        ensures
            hour_marched(geography.routes@, *old(self), *final(self), draw),
            forall|i: int| 0 <= i < r@.len() ==> march_event(#[trigger] r@[i]),
            hour_reported(geography.routes@, *old(self), *final(self), old(self).route@.len() - final(self).route@.len(), r@),
    {
        let ghost start = *self;
        let ghost roads = geography.routes@;
        let mut events: Vec<StrategicEvent> = Vec::new();
        self.progress_minutes = self.progress_minutes.saturating_add(MINUTES_PER_STRATEGIC_HOUR);
        let ghost mut k: int = 0;
        proof {
            assert(start.route@.skip(0) =~= start.route@);
        }
        while self.route.len() > 0
            invariant_except_break
                self.route@.len() > 0 ==> self.destination_cell_id == start.destination_cell_id,
                self.route@.len() > 0,
                events@.len() == k,
            invariant
                start == *old(self),
                roads == geography.routes@,
                0 <= k <= start.route@.len(),
                self.route@ == start.route@.skip(k),
                walked(roads, start, *self, draw, k),
                whole_force(start, *self),
                self.origin_cell_id == start.origin_cell_id,
                start.route@.len() > 0,
                self.route@.len() == 0 ==> (self.progress_minutes == 0 && self.destination_cell_id is None),
                forall|i: int| 0 <= i < events@.len() ==> march_event(#[trigger] events@[i]),
                forall|i: int| 0 <= i < k ==> moved_event(roads, start, i, #[trigger] events@[i]),
                k <= events@.len(),
            ensures
                self.route@.len() > 0 ==> self.destination_cell_id == start.destination_cell_id,
                hour_reported(roads, start, *self, k, events@),
            decreases self.route@.len(),
        {
            let road = match geography.route(self.route[0].as_str()) {
                Some(x) => x,
                None => {
                    events.push(StrategicEvent::ForceHalted {
                        force_id: self.id.duplicate(),
                        faction_id: self.faction_id.clone(),
                        cell_id: self.position_cell_id.clone(),
                        reason: HaltReason::RouteMissing,
                    });
                    return events;
                },
            };
            if self.progress_minutes < road.time_cost_minutes {
                break;
            }
            let cost = supply_cost_of(road);
            if self.supply < cost {
                events.push(StrategicEvent::ForceHalted {
                    force_id: self.id.duplicate(),
                    faction_id: self.faction_id.clone(),
                    cell_id: self.position_cell_id.clone(),
                    reason: HaltReason::OutOfSupply,
                });
                return events;
            }
            proof {
                assert(self.route@[0] == start.route@[k]);
            }
            self.progress_minutes = self.progress_minutes - road.time_cost_minutes;
            self.supply = self.supply - cost;
            self.readiness = readiness_after_a_hop(self.readiness, draw);
            self.position_cell_id = road.to_location_id.clone();
            let _walked = self.route.remove(0);
            let ghost pre_events = events@;
            proof {
                k = k + 1;
                assert(self.route@ =~= start.route@.skip(k));
                assert(start.route@[k - 1] == _walked);
            }
            events.push(StrategicEvent::ForceMoved {
                force_id: self.id.duplicate(),
                faction_id: self.faction_id.clone(),
                route_id: road.id.clone(),
                from_cell_id: road.from_location_id.clone(),
                to_cell_id: road.to_location_id.clone(),
            });
            proof {
                assert forall|i: int| 0 <= i < k implies moved_event(roads, start, i, #[trigger] events@[i]) by {
                    if i < k - 1 {
                        assert(events@[i] == pre_events[i]);
                    }
                }
            }
            if self.route.len() == 0 {
                self.progress_minutes = 0;
                self.destination_cell_id = None;
                events.push(StrategicEvent::ForceArrived {
                    force_id: self.id.duplicate(),
                    faction_id: self.faction_id.clone(),
                    cell_id: self.position_cell_id.clone(),
                    composition: self.composition.duplicate(),
                    strength: self.strength,
                    readiness: self.readiness,
                    supply: self.supply,
                });
                break;
            }
        }
        events
    }
}

/// What one hour of marching does to the board `start`, leaving `end` and
/// reporting `events`.
pub open spec fn forces_advanced(start: ExpeditionState, end: ExpeditionState, geography: Geography, events: Seq<StrategicEvent>) -> bool {
    &&& (keys_of(end.forces@) == keys_of(start.forces@))
    &&& (forall|i: int| 0 <= i < start.forces@.len() ==> {
        let before = (#[trigger] start.forces@[i]).1;
        let after = end.forces@[i].1;
        if before.route@.len() == 0 {
            after == before
        } else {
            hour_marched(
                geography.routes@,
                before,
                after,
                strategic_draw_spec(
                    start.rng_seed,
                    start.campaign_day,
                    start.strategic_clock.hour_of_day,
                    before.faction_id@,
                    "strategic.force"@,
                ),
            )
        }
    })
    &&& (forall|i: int| 0 <= i < events.len() ==> march_event(#[trigger] events[i]))
    &&& (end == (ExpeditionState { forces: end.forces, ..start }))
    &&& (exists|runs: Seq<Seq<StrategicEvent>>|
        {
            &&& runs.len() == start.forces@.len()
            &&& events == runs.flatten()
            &&& forall|j: int|
                0 <= j < runs.len() ==> {
                    let before = start.forces@[j].1;
                    let after = end.forces@[j].1;
                    if before.route@.len() == 0 {
                        (#[trigger] runs[j]).len() == 0
                    } else {
                        hour_reported(geography.routes@, before, after, before.route@.len() - after.route@.len(), runs[j])
                    }
                }
        })
}

/// What resolving the hour's arrivals `marching` does to the board `start`,
/// leaving `end` and reporting `events`.
pub open spec fn arrivals_resolved(start: ExpeditionState, end: ExpeditionState, geography: Geography, marching: Seq<StrategicEvent>, events: Seq<StrategicEvent>) -> bool {
    &&& (end.ownership.contents() == ownership_after(geography, start.ownership.contents(), start.forces@, marching))
    &&& (end == (ExpeditionState { ownership: end.ownership, ..start }))
    &&& (arrival_reports(geography, start.ownership.contents(), start.forces@, start.buildings@, marching, start.campaign_day, events))
    &&& (forall|i: int| 0 <= i < events.len() ==> (#[trigger] events[i] is ControlTaken || events[i] is ArrivalContested))
}

impl ExpeditionState {
    /// One hour of marching for every force that has road left, in order.
    /// Each marching force reads its faction's `strategic.force` draw for the
    /// hour on the clock, and spends it only on the readiness of its hops.
    /// A force with no orders is left exactly as it was.
    pub fn advance_forces(&mut self, geography: &Geography) -> (r: Vec<StrategicEvent>)
        ensures
            forces_advanced(*old(self), *final(self), *geography, r@),
    {
        let day = self.campaign_day;
        let hour = self.strategic_clock.hour_of_day;
        let seed = self.rng_seed;
        let ghost start = self.forces@;
        let ghost mut runs: Seq<Seq<StrategicEvent>> = Seq::empty();
        let mut events: Vec<StrategicEvent> = Vec::new();
        let mut i: usize = 0;
        proof {
            assert(runs.flatten() =~= Seq::<StrategicEvent>::empty());
        }
        while i < self.forces.len()
            invariant
                runs.len() == i,
                events@ == runs.flatten(),
                forall|j: int|
                    0 <= j < i ==> {
                        let before = start[j].1;
                        let after = self.forces@[j].1;
                        if before.route@.len() == 0 {
                            (#[trigger] runs[j]).len() == 0
                        } else {
                            hour_reported(geography.routes@, before, after, before.route@.len() - after.route@.len(), runs[j])
                        }
                    },
                i <= start.len(),
                self.forces@.len() == start.len(),
                keys_of(self.forces@) == keys_of(start),
                forall|j: int| i <= j < start.len() ==> #[trigger] self.forces@[j] == start[j],
                forall|j: int| 0 <= j < i ==> {
                    let before = (#[trigger] start[j]).1;
                    let after = self.forces@[j].1;
                    if before.route@.len() == 0 {
                        after == before
                    } else {
                        hour_marched(
                            geography.routes@,
                            before,
                            after,
                            strategic_draw_spec(seed, day, hour, before.faction_id@, "strategic.force"@),
                        )
                    }
                },
                forall|j: int| 0 <= j < events@.len() ==> march_event(#[trigger] events@[j]),
                *self == (ExpeditionState { forces: self.forces, ..*old(self) }),
                day == self.campaign_day,
                hour == self.strategic_clock.hour_of_day,
                seed == self.rng_seed,
            decreases start.len() - i,
        {
            let ghost before_all = self.forces@;
            let ghost ran: Seq<StrategicEvent> = Seq::empty();
            if self.forces.value_at(i).is_marching() {
                let draw = hour_draws(seed, day, hour, self.forces.value_at(i).faction_id.as_str()).force;
                let force = self.forces.value_at_mut(i);
                let mut moved = force.march_one_hour(geography, draw);
                proof {
                    assert(keys_of(self.forces@) =~= keys_of(before_all));
                    ran = moved@;
                }
                events.append(&mut moved);
            } else {
                proof {
                    assert(events@ =~= events@ + ran);
                }
            }
            proof {
                runs.lemma_flatten_push(ran);
                let next = runs.push(ran);
                assert forall|j: int|
                    0 <= j < i + 1 implies {
                    let before = start[j].1;
                    let after = self.forces@[j].1;
                    if before.route@.len() == 0 {
                        (#[trigger] next[j]).len() == 0
                    } else {
                        hour_reported(geography.routes@, before, after, before.route@.len() - after.route@.len(), next[j])
                    }
                } by {
                    if j < i {
                        assert(next[j] == runs[j]);
                        assert(self.forces@[j] == before_all[j]);
                    }
                }
                runs = next;
            }
            i = i + 1;
        }
        events
    }

    /// What the hour's arrivals mean for who holds the ground, resolved in
    /// order: ground nobody holds is taken; ground another faction holds with
    /// no body of theirs standing on it changes hands, and the loser is
    /// named; ground defended by the holder's own force does not change hands,
    /// and the defenders are named; coming home is not news. Buildings stand
    /// as they were. Nothing but `ownership` changes.
    pub fn resolve_arrivals(&mut self, geography: &Geography, marching: &Vec<StrategicEvent>) -> (r: Vec<StrategicEvent>)
        ensures
            arrivals_resolved(*old(self), *final(self), *geography, marching@, r@),
    {
        let day = self.campaign_day;
        let mut events: Vec<StrategicEvent> = Vec::new();
        let mut i: usize = 0;
        proof {
            assert(marching@.take(0) =~= Seq::<StrategicEvent>::empty());
        }
        while i < marching.len()
            invariant
                i <= marching@.len(),
                self.ownership.contents() == ownership_after(*geography, old(self).ownership.contents(), old(self).forces@, marching@.take(i as int)),
                *self == (ExpeditionState { ownership: self.ownership, ..*old(self) }),
                day == self.campaign_day,
                arrival_reports(*geography, old(self).ownership.contents(), old(self).forces@, old(self).buildings@, marching@.take(i as int), day, events@),
                forall|j: int| 0 <= j < events@.len() ==> (#[trigger] events@[j] is ControlTaken || events@[j] is ArrivalContested),
            decreases marching@.len() - i,
        {
            proof {
                assert(marching@.take(i + 1).drop_last() =~= marching@.take(i as int));
                assert(marching@.take(i + 1).last() == marching@[i as int]);
            }
            let ghost ev_before = events@;
            match &marching[i] {
                StrategicEvent::ForceArrived { force_id, faction_id, cell_id, .. } => {
                    let held = geography.held_by(cell_id.as_str(), &self.ownership);
                    let home = match &held {
                        Some(h) => str_eq(h.as_str(), faction_id.as_str()),
                        None => false,
                    };
                    if !home {
                        let mut defenders: Vec<ForceId> = Vec::new();
                        match &held {
                            Some(h) => {
                                let mut k: usize = 0;
                                while k < self.forces.len()
                                    invariant
                                        k <= self.forces@.len(),
                                        self.forces@ == old(self).forces@,
                                        (defenders@.len() > 0) == exists|m: int|
                                            0 <= m < k && (#[trigger] self.forces@[m]).1.position_cell_id@ == cell_id@
                                                && self.forces@[m].1.faction_id@ == h@,
                                        defenders@.map_values(|x: ForceId| x@) == defender_ids(self.forces@, h@, cell_id@, k as int),
                                    decreases self.forces@.len() - k,
                                {
                                    let f = self.forces.value_at(k);
                                    let ghost before = defenders@;
                                    if str_eq(f.position_cell_id.as_str(), cell_id.as_str()) && str_eq(f.faction_id.as_str(), h.as_str()) {
                                        defenders.push(f.id.duplicate());
                                    }
                                    proof {
                                        assert(defenders@.map_values(|x: ForceId| x@) =~= defender_ids(self.forces@, h@, cell_id@, k + 1));
                                    }
                                    k = k + 1;
                                }
                            },
                            None => {},
                        }
                        if defenders.len() > 0 && !CONTESTED_ARRIVAL_RESOLVES_CONTROL {
                            let holder_id = match &held {
                                Some(h) => h.clone(),
                                None => String::new(),
                            };
                            events.push(StrategicEvent::ArrivalContested {
                                force_id: force_id.duplicate(),
                                faction_id: faction_id.clone(),
                                cell_id: cell_id.clone(),
                                held_by: holder_id,
                                defender_force_ids: defenders,
                                day,
                            });
                            proof {
                                assert(events@.drop_last() =~= ev_before);
                                assert(contested_report(
                                    events@.last(),
                                    *force_id,
                                    faction_id@,
                                    cell_id@,
                                    holder(*geography, self.ownership.contents(), cell_id@)->0,
                                    old(self).forces@,
                                    day,
                                ));
                            }
                        } else {
                            let standing = self.buildings_at(cell_id.as_str());
                            let mut building_instance_ids: Vec<String> = Vec::new();
                            let mut k: usize = 0;
                            while k < standing.len()
                                invariant
                                    k <= standing@.len(),
                                    building_instance_ids@.map_values(|x: String| x@) == standing@.take(k as int).map_values(
                                        |b: &crate::building::BuildingInstance| b.id@,
                                    ),
                                decreases standing@.len() - k,
                            {
                                let ghost prev = building_instance_ids@;
                                let id = standing[k].id.clone();
                                building_instance_ids.push(id);
                                proof {
                                    assert(standing@.take(k + 1) =~= standing@.take(k as int).push(standing@[k as int]));
                                    assert(building_instance_ids@.map_values(|x: String| x@) =~= prev.map_values(|x: String| x@).push(
                                        standing@[k as int].id@,
                                    ));
                                    assert(standing@.take(k + 1).map_values(|b: &crate::building::BuildingInstance| b.id@) =~= standing@.take(
                                        k as int,
                                    ).map_values(|b: &crate::building::BuildingInstance| b.id@).push(standing@[k as int].id@));
                                }
                                k = k + 1;
                            }
                            proof {
                                assert(standing@.take(standing@.len() as int) =~= standing@);
                                assert(building_instance_ids@.map_values(|x: String| x@) =~= crate::building::on_cell(
                                    self.buildings@,
                                    cell_id@,
                                ).map_values(|b: crate::building::BuildingInstance| b.id@)) by {
                                    let ids = building_instance_ids@.map_values(|x: String| x@);
                                    let want = crate::building::on_cell(self.buildings@, cell_id@).map_values(|b: crate::building::BuildingInstance| b.id@);
                                    assert(standing@.map_values(|b: &crate::building::BuildingInstance| *b) == crate::building::on_cell(self.buildings@, cell_id@));
                                    assert forall|j: int| 0 <= j < ids.len() implies ids[j] == want[j] by {
                                        assert(standing@.map_values(|b: &crate::building::BuildingInstance| *b)[j] == *standing@[j]);
                                    }
                                }
                            }
                            let ghost held_spec = holder(*geography, self.ownership.contents(), cell_id@);
                            proof {
                                assert(!defended(old(self).forces@, held_spec, cell_id@));
                            }
                            match self.set_control(cell_id.as_str(), Some(faction_id.clone()), geography) {
                                Ok(()) => {
                                    events.push(StrategicEvent::ControlTaken {
                                        force_id: force_id.duplicate(),
                                        faction_id: faction_id.clone(),
                                        cell_id: cell_id.clone(),
                                        from: held,
                                        building_instance_ids,
                                        day,
                                    });
                                    proof {
                                        assert(events@.drop_last() =~= ev_before);
                                    }
                                },
                                Err(_) => {},
                            }
                        }
                    }
                },
                _ => {},
            }
            i = i + 1;
        }
        proof {
            assert(marching@.take(marching@.len() as int) =~= marching@);
        }
        events
    }
}

/// No two roads of the graph share an ID.
pub open spec fn distinct_roads(roads: Seq<RouteOption>) -> bool {
    forall|i: int, j: int| 0 <= i < j < roads.len() ==> (#[trigger] roads[i]).id@ != (#[trigger] roads[j]).id@
}

/// Where walking the first `k` roads of a route by their IDs leaves a force
/// that set off from `from`: the far end of the last road walked.
pub open spec fn walked_to(roads: Seq<RouteOption>, ids: Seq<Seq<char>>, from: Seq<char>, k: int) -> Seq<char> {
    if k <= 0 {
        from
    } else {
        named(roads, ids[k - 1]).to_location_id@
    }
}

/// On a graph whose roads have distinct IDs, a route that is a chain of
/// real roads is walked along those very roads: after any number of hops
/// the force stands where a chain of the route's first roads, each leaving
/// where the last arrived, leads from where it set off. A force never
/// teleports.
pub proof fn lemma_marching_follows_the_chain(roads: Seq<RouteOption>, ids: Seq<Seq<char>>, from: Seq<char>, to: Seq<char>, k: int, ungated: bool)
    requires
        distinct_roads(roads),
        chain(roads, ids, from, to, ungated),
        0 <= k <= ids.len(),
    ensures
        forall|i: int| 0 <= i < k ==> names_road(roads, #[trigger] ids[i]),
        chain(roads, ids.take(k), from, walked_to(roads, ids, from, k), ungated),
    decreases k,
{
    if k == 0 {
        assert(ids.take(0) =~= Seq::<Seq<char>>::empty());
    } else {
        let x = choose|x: int|
            0 <= x < roads.len() && (#[trigger] roads[x]).id@ == ids[0] && roads[x].from_location_id@ == from && (ungated
                ==> roads[x].gate is None) && chain(roads, ids.drop_first(), roads[x].to_location_id@, to, ungated);
        lemma_road_named_by(roads, x);
        lemma_marching_follows_the_chain(roads, ids.drop_first(), roads[x].to_location_id@, to, k - 1, ungated);
        assert forall|i: int| 0 <= i < k implies names_road(roads, #[trigger] ids[i]) by {
            if i > 0 {
                assert(ids[i] == ids.drop_first()[i - 1]);
            }
        }
        let rest = ids.drop_first().take(k - 1);
        assert(ids.take(k).drop_first() =~= rest);
        assert(ids.take(k)[0] == ids[0]);
        if k > 1 {
            assert(ids.drop_first()[k - 2] == ids[k - 1]);
        }
        assert(chain(roads, ids.take(k), from, walked_to(roads, ids, from, k), ungated));
    }
}

/// On a graph whose roads have distinct IDs, the road a lookup by ID finds
/// is the only road carrying that ID.
pub proof fn lemma_road_named_by(roads: Seq<RouteOption>, x: int)
    requires
        distinct_roads(roads),
        0 <= x < roads.len(),
    ensures
        names_road(roads, roads[x].id@),
        named(roads, roads[x].id@) == roads[x],
{
    assert(crate::geography::road_at(roads, roads[x].id@, x)) by {
        assert forall|j: int| 0 <= j < x implies (#[trigger] roads[j]).id@ != roads[x].id@ by {}
    }
    crate::geography::lemma_road_at_unique(roads, roads[x].id@, x);
}

} // verus!
