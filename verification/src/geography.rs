//! The island's graph: its cells, the regions they sit in, and the routes
//! between them, some of them behind gates that a discovery opens.

use vstd::prelude::*;

use crate::keyed::{StrMap, StrSet};
use crate::text::{owned, str_eq};

verus! {

/// How much more dangerous a road is while its two ends are held by
/// different factions. Provisional tuning.
pub const CONTESTED_RISK_BONUS: u8 = 2;

/// One cell of the world graph.
#[derive(Clone, Debug, PartialEq, Eq)]
pub struct LocationRecord {
    pub id: String,
    pub display_name: String,
    pub region_id: String,
    /// The faction content says holds this cell when no save overrides it.
    pub controller: Option<String>,
}

/// One directed road between two cells.
#[derive(Clone, Debug, PartialEq, Eq)]
pub struct RouteOption {
    pub id: String,
    pub from_location_id: String,
    pub to_location_id: String,
    pub time_cost_minutes: u32,
    pub supply_cost: u32,
    pub risk_level: u8,
    /// The discovery that must be open for this road to be walked, if any.
    pub gate: Option<String>,
}

/// The world graph.
#[derive(Clone, Debug, PartialEq, Eq)]
pub struct Geography {
    pub locations: Vec<LocationRecord>,
    pub routes: Vec<RouteOption>,
}

/// A road may be walked with these gates open.
pub open spec fn usable(r: RouteOption, gates: Set<Seq<char>>) -> bool {
    match r.gate {
        None => true,
        Some(g) => gates.contains(g@),
    }
}

/// Some walk of at most `n` usable roads leads from `a` to `b`.
pub open spec fn connects(routes: Seq<RouteOption>, gates: Set<Seq<char>>, a: Seq<char>, b: Seq<char>, n: nat) -> bool
    decreases n,
{
    a == b || (n > 0 && exists|i: int|
        0 <= i < routes.len() && (#[trigger] routes[i]).from_location_id@ == a && usable(routes[i], gates)
            && connects(routes, gates, routes[i].to_location_id@, b, (n - 1) as nat))
}

/// `i` is the first position of a road with this ID.
pub open spec fn road_at(roads: Seq<RouteOption>, id: Seq<char>, i: int) -> bool {
    &&& 0 <= i < roads.len()
    &&& roads[i].id@ == id
    &&& forall|j: int| 0 <= j < i ==> (#[trigger] roads[j]).id@ != id
}

/// The graph carries a road with this ID.
pub open spec fn names_road(roads: Seq<RouteOption>, id: Seq<char>) -> bool {
    exists|i: int| road_at(roads, id, i)
}

/// The road a lookup by this ID finds: the first one carrying it.
pub open spec fn named(roads: Seq<RouteOption>, id: Seq<char>) -> RouteOption {
    roads[choose|i: int| road_at(roads, id, i)]
}

/// Only one position is the first with an ID.
pub proof fn lemma_road_at_unique(roads: Seq<RouteOption>, id: Seq<char>, i: int)
    requires
        road_at(roads, id, i),
    ensures
        names_road(roads, id),
        named(roads, id) == roads[i],
{
    let c = choose|c: int| road_at(roads, id, c);
    if c < i {
        assert(roads[c].id@ != id);
    } else if i < c {
        assert(roads[i].id@ != id);
    }
}

/// The first cell with this ID, if any.
pub open spec fn has_location(g: Geography, id: Seq<char>) -> bool {
    exists|i: int| 0 <= i < g.locations@.len() && #[trigger] g.locations@[i].id@ == id
}

/// Some walk of at most `n` usable roads leads from `a` to `b` through the
/// graph's own cells: it starts on a cell the graph carries and every road
/// of it arrives at one. These are the walks the graph's distances count; a
/// road to or from a cell the graph does not carry is never walked.
pub open spec fn joined(g: Geography, gates: Set<Seq<char>>, a: Seq<char>, b: Seq<char>, n: nat) -> bool
    decreases n,
{
    has_location(g, a) && (a == b || (n > 0 && exists|i: int|
        0 <= i < g.routes@.len() && (#[trigger] g.routes@[i]).from_location_id@ == a && usable(g.routes@[i], gates)
            && joined(g, gates, g.routes@[i].to_location_id@, b, (n - 1) as nat)))
}

/// A walk through the graph's own cells is a walk.
pub proof fn lemma_joined_connects(g: Geography, gates: Set<Seq<char>>, a: Seq<char>, b: Seq<char>, n: nat)
    requires
        joined(g, gates, a, b, n),
    ensures
        connects(g.routes@, gates, a, b, n),
    decreases n,
{
    if a != b {
        let i = choose|i: int|
            0 <= i < g.routes@.len() && (#[trigger] g.routes@[i]).from_location_id@ == a && usable(g.routes@[i], gates)
                && joined(g, gates, g.routes@[i].to_location_id@, b, (n - 1) as nat);
        lemma_joined_connects(g, gates, g.routes@[i].to_location_id@, b, (n - 1) as nat);
    }
}

/// On a graph whose roads join its own cells, every walk from one of its
/// cells runs through its own cells.
pub proof fn lemma_connects_joined(g: Geography, gates: Set<Seq<char>>, a: Seq<char>, b: Seq<char>, n: nat)
    requires
        roads_join_cells(g),
        has_location(g, a),
        connects(g.routes@, gates, a, b, n),
    ensures
        joined(g, gates, a, b, n),
    decreases n,
{
    if a != b {
        let i = choose|i: int|
            0 <= i < g.routes@.len() && (#[trigger] g.routes@[i]).from_location_id@ == a && usable(g.routes@[i], gates)
                && connects(g.routes@, gates, g.routes@[i].to_location_id@, b, (n - 1) as nat);
        assert(has_location(g, g.routes@[i].to_location_id@));
        lemma_connects_joined(g, gates, g.routes@[i].to_location_id@, b, (n - 1) as nat);
    }
}

/// Road `j` leaves `from`, a cell of the graph, through an opened gate or
/// none, for another cell of the graph, from which a walk through the
/// graph's cells leads to `to`, of fewer roads than the longest
/// representable and shorter than every such walk from `from`.
pub open spec fn closer_road(g: Geography, gates: Set<Seq<char>>, from: Seq<char>, to: Seq<char>, j: int) -> bool {
    &&& 0 <= j < g.routes@.len()
    &&& g.routes@[j].from_location_id@ == from
    &&& has_location(g, from)
    &&& usable(g.routes@[j], gates)
    &&& exists|m: nat|
        m < u32::MAX && #[trigger] joined(g, gates, g.routes@[j].to_location_id@, to, m) && forall|n: nat|
            #[trigger] joined(g, gates, from, to, n) ==> m < n
}

/// Road `j` is the first closer road in the graph's order.
pub open spec fn first_closer_road(g: Geography, gates: Set<Seq<char>>, from: Seq<char>, to: Seq<char>, j: int) -> bool {
    &&& closer_road(g, gates, from, to, j)
    &&& forall|i: int| 0 <= i < j ==> !#[trigger] closer_road(g, gates, from, to, i)
}

/// `i` is the first position of a cell with this ID.
pub open spec fn location_at(g: Geography, id: Seq<char>, i: int) -> bool {
    &&& 0 <= i < g.locations@.len()
    &&& g.locations@[i].id@ == id
    &&& forall|j: int| 0 <= j < i ==> (#[trigger] g.locations@[j]).id@ != id
}

/// A cell the graph carries at position `k` has a first position.
pub proof fn lemma_first_location(g: Geography, id: Seq<char>, k: int)
    requires
        0 <= k < g.locations@.len(),
        g.locations@[k].id@ == id,
    ensures
        exists|i: int| #[trigger] location_at(g, id, i),
    decreases k,
{
    if forall|j: int| 0 <= j < k ==> (#[trigger] g.locations@[j]).id@ != id {
        assert(location_at(g, id, k));
    } else {
        let j = choose|j: int| 0 <= j < k && (#[trigger] g.locations@[j]).id@ == id;
        lemma_first_location(g, id, j);
    }
}

/// Who holds a cell: the save's override where there is one, the authored
/// controller otherwise.
pub open spec fn holder(g: Geography, ownership: Map<Seq<char>, String>, cell: Seq<char>) -> Option<Seq<char>> {
    if ownership.contains_key(cell) {
        Some(ownership[cell]@)
    } else {
        authored_controller(g.locations@, cell)
    }
}

/// The authored controller of the first cell carrying this ID.
pub open spec fn authored_controller(locs: Seq<LocationRecord>, cell: Seq<char>) -> Option<Seq<char>>
    decreases locs.len(),
{
    if locs.len() == 0 {
        None
    } else if locs[0].id@ == cell {
        match locs[0].controller {
            Some(c) => Some(c@),
            None => None,
        }
    } else {
        authored_controller(locs.drop_first(), cell)
    }
}

/// How dangerous a road is right now.
pub open spec fn risk_now(g: Geography, r: RouteOption, ownership: Map<Seq<char>, String>) -> u8 {
    let a = holder(g, ownership, r.from_location_id@);
    let b = holder(g, ownership, r.to_location_id@);
    if a is Some && b is Some && a != b {
        if r.risk_level as int + CONTESTED_RISK_BONUS as int > 255 {
            255
        } else {
            (r.risk_level + CONTESTED_RISK_BONUS) as u8
        }
    } else {
        r.risk_level
    }
}

pub(crate) fn opt_str_eq(a: &Option<String>, b: &Option<String>) -> (r: bool)
    ensures
        r == (match (*a, *b) {
            (Some(x), Some(y)) => x@ == y@,
            (None, None) => true,
            _ => false,
        }),
{
    match (a, b) {
        (Some(x), Some(y)) => str_eq(x.as_str(), y.as_str()),
        (None, None) => true,
        _ => false,
    }
}

/// Every road of the graph leaves one of its own cells and arrives at one.
pub open spec fn roads_join_cells(g: Geography) -> bool {
    forall|k: int|
        0 <= k < g.routes@.len() ==> has_location(g, (#[trigger] g.routes@[k]).from_location_id@) && has_location(
            g,
            g.routes@[k].to_location_id@,
        )
}

/// Only one position is the first with an ID.
pub proof fn lemma_location_at_unique(g: Geography, id: Seq<char>, i: int, j: int)
    requires
        location_at(g, id, i),
        location_at(g, id, j),
    ensures
        i == j,
{
    if i < j {
        assert(g.locations@[i].id@ != id);
    } else if j < i {
        assert(g.locations@[j].id@ != id);
    }
}

/// Every known walk in `d` is one: a cell's entry is a number of usable
/// roads that leads from it to `to` through the graph's own cells, and
/// `to`'s own cells are known at zero.
pub open spec fn walks_known(g: Geography, gates: Set<Seq<char>>, to: Seq<char>, d: Seq<Option<u32>>) -> bool {
    &&& d.len() == g.locations@.len()
    &&& forall|i: int|
        0 <= i < d.len() ==> (#[trigger] d[i] matches Some(n) ==> connects(g.routes@, gates, g.locations@[i].id@, to, n as nat)
            && joined(g, gates, g.locations@[i].id@, to, n as nat))
    &&& forall|i: int| 0 <= i < d.len() && g.locations@[i].id@ == to ==> #[trigger] d[i] == Some(0u32)
}

/// Road `k` is settled in `d`: where its far end has a known walk, its near
/// end has one at most a road longer.
pub open spec fn road_settled(g: Geography, gates: Set<Seq<char>>, d: Seq<Option<u32>>, k: int) -> bool {
    usable(g.routes@[k], gates) ==> forall|a: int, b: int|
        #![trigger location_at(g, g.routes@[k].from_location_id@, a), location_at(g, g.routes@[k].to_location_id@, b)]
        location_at(g, g.routes@[k].from_location_id@, a) && location_at(g, g.routes@[k].to_location_id@, b) && d[b] is Some
            && d[b]->0 < u32::MAX ==> d[a] is Some && d[a]->0 <= d[b]->0 + 1
}

/// No road of the graph can shorten a known walk any more.
pub open spec fn settled(g: Geography, gates: Set<Seq<char>>, d: Seq<Option<u32>>) -> bool {
    forall|k: int| 0 <= k < g.routes@.len() ==> #[trigger] road_settled(g, gates, d, k)
}

/// What an entry adds to the potential: its length where known, one more
/// than the longest representable where not.
pub open spec fn entry_cost(e: Option<u32>) -> nat {
    match e {
        Some(m) => m as nat,
        None => u32::MAX as nat + 1,
    }
}

/// The sum of the entries' costs: what every shortening lowers.
pub open spec fn potential(d: Seq<Option<u32>>) -> nat
    decreases d.len(),
{
    if d.len() == 0 {
        0
    } else {
        potential(d.drop_last()) + entry_cost(d.last())
    }
}

proof fn lemma_potential_update(d: Seq<Option<u32>>, a: int, v: Option<u32>)
    requires
        0 <= a < d.len(),
    ensures
        potential(d.update(a, v)) + entry_cost(d[a]) == potential(d) + entry_cost(v),
    decreases d.len(),
{
    if a == d.len() - 1 {
        assert(d.update(a, v).drop_last() =~= d.drop_last());
    } else {
        lemma_potential_update(d.drop_last(), a, v);
        assert(d.update(a, v).drop_last() =~= d.drop_last().update(a, v));
    }
}

/// Once no road can shorten a known walk, every walk through the graph's
/// cells of at most the longest representable number of roads is matched
/// or beaten by the entry of the cell it starts from.
pub proof fn lemma_settled_complete(g: Geography, gates: Set<Seq<char>>, to: Seq<char>, d: Seq<Option<u32>>, a_id: Seq<char>, n: nat)
    requires
        walks_known(g, gates, to, d),
        settled(g, gates, d),
        joined(g, gates, a_id, to, n),
        n <= u32::MAX,
    ensures
        forall|a: int| #[trigger] location_at(g, a_id, a) ==> d[a] is Some && d[a]->0 <= n,
    decreases n,
{
    assert forall|a: int| #[trigger] location_at(g, a_id, a) implies d[a] is Some && d[a]->0 <= n by {
        if a_id == to {
            assert(d[a] == Some(0u32));
        } else {
            let k = choose|k: int|
                0 <= k < g.routes@.len() && (#[trigger] g.routes@[k]).from_location_id@ == a_id && usable(g.routes@[k], gates)
                    && joined(g, gates, g.routes@[k].to_location_id@, to, (n - 1) as nat);
            let b_id = g.routes@[k].to_location_id@;
            assert(has_location(g, b_id));
            let j = choose|j: int| 0 <= j < g.locations@.len() && #[trigger] g.locations@[j].id@ == b_id;
            lemma_first_location(g, b_id, j);
            let b = choose|b: int| #[trigger] location_at(g, b_id, b);
            lemma_settled_complete(g, gates, to, d, b_id, (n - 1) as nat);
            assert(d[b] is Some && d[b]->0 <= n - 1);
            assert(road_settled(g, gates, d, k));
            assert(location_at(g, g.routes@[k].from_location_id@, a));
            assert(location_at(g, g.routes@[k].to_location_id@, b));
        }
    }
}

/// A road whose far end the settled distances put no nearer than `want`,
/// the length of a walk through the graph's cells from its near end, is no
/// closer road.
pub proof fn lemma_not_closer(g: Geography, gates: Set<Seq<char>>, from: Seq<char>, to: Seq<char>, d: Seq<Option<u32>>, j: int, want: nat)
    requires
        walks_known(g, gates, to, d),
        settled(g, gates, d),
        joined(g, gates, from, to, want),
        0 <= j < g.routes@.len(),
        forall|b: int| #[trigger] location_at(g, g.routes@[j].to_location_id@, b) ==> !(d[b] is Some && d[b]->0 < want),
    ensures
        !closer_road(g, gates, from, to, j),
{
    if closer_road(g, gates, from, to, j) {
        let c = g.routes@[j].to_location_id@;
        let m = choose|m: nat|
            m < u32::MAX && #[trigger] joined(g, gates, c, to, m) && forall|n: nat|
                #[trigger] joined(g, gates, from, to, n) ==> m < n;
        assert(m < want);
        lemma_settled_complete(g, gates, to, d, c, m);
        assert(has_location(g, c));
        let q = choose|q: int| 0 <= q < g.locations@.len() && #[trigger] g.locations@[q].id@ == c;
        lemma_first_location(g, c, q);
        let b = choose|b: int| #[trigger] location_at(g, c, b);
        assert(d[b] is Some && d[b]->0 <= m);
    }
}

/// A road out of `from`, a cell of the graph, with a walk of `m` roads
/// through the graph's cells from its far end gives such a walk of one more
/// from `from`.
pub proof fn lemma_road_then_walk(g: Geography, gates: Set<Seq<char>>, from: Seq<char>, to: Seq<char>, j: int, m: nat)
    requires
        0 <= j < g.routes@.len(),
        g.routes@[j].from_location_id@ == from,
        has_location(g, from),
        usable(g.routes@[j], gates),
        joined(g, gates, g.routes@[j].to_location_id@, to, m),
    ensures
        joined(g, gates, from, to, m + 1),
{
    assert(joined(g, gates, g.routes@[j].to_location_id@, to, ((m + 1) - 1) as nat));
}

fn location(id: &str, display_name: &str, region_id: &str) -> (r: LocationRecord)
    ensures
        r.id@ == id@,
        r.display_name@ == display_name@,
        r.region_id@ == region_id@,
        r.controller is None,
{
    LocationRecord {
        id: owned(id),
        display_name: owned(display_name),
        region_id: owned(region_id),
        controller: None,
    }
}

fn road(id: &str, from: &str, to: &str, minutes: u32, risk: u8, gate: Option<&str>) -> (r: RouteOption)
    ensures
        r.id@ == id@,
        r.from_location_id@ == from@,
        r.to_location_id@ == to@,
        r.time_cost_minutes == minutes,
        r.supply_cost == 0,
        r.risk_level == risk,
        match gate {
            Some(g) => r.gate matches Some(x) && x@ == g@,
            None => r.gate is None,
        },
{
    RouteOption {
        id: owned(id),
        from_location_id: owned(from),
        to_location_id: owned(to),
        time_cost_minutes: minutes,
        supply_cost: 0,
        risk_level: risk,
        gate: match gate {
            Some(g) => Some(owned(g)),
            None => None,
        },
    }
}

impl Geography {
    /// The vertical slice of the black beach: six cells in three regions,
    /// with the shore shortcut behind the map table's tidal cut and the
    /// archive core behind the tomb's true name.
    pub fn black_beach_vertical_slice() -> (g: Geography)
        ensures
            g.locations@.len() == 6,
            g.locations@[0].id@ == "world.cell.black_beach"@,
            g.locations@[1].id@ == "world.cell.damaged_estate"@,
            g.locations@[2].id@ == "world.cell.river_landing"@,
            g.locations@[3].id@ == "world.cell.reception_terrace"@,
            g.locations@[4].id@ == "world.cell.tomb_reception"@,
            g.locations@[5].id@ == "world.cell.tomb_archive_core"@,
            forall|i: int| 0 <= i < 6 ==> (#[trigger] g.locations@[i]).controller is None,
            g.routes@.len() == 12,
    {
        let mut locations: Vec<LocationRecord> = Vec::new();
        locations.push(location("world.cell.black_beach", "Black Beach", "world.region.black_beach"));
        locations.push(location("world.cell.damaged_estate", "Damaged Estate", "world.region.black_beach"));
        locations.push(location("world.cell.river_landing", "River Landing", "world.region.river"));
        locations.push(location("world.cell.reception_terrace", "Reception Terrace", "world.region.tomb"));
        locations.push(location("world.cell.tomb_reception", "Tomb Reception", "world.region.tomb"));
        locations.push(location("world.cell.tomb_archive_core", "Tomb Archive Core", "world.region.tomb"));
        let mut routes: Vec<RouteOption> = Vec::new();
        routes.push(road("world.portal.black_beach_to_damaged_estate", "world.cell.black_beach", "world.cell.damaged_estate", 15, 1, None));
        routes.push(road("world.portal.damaged_estate_to_black_beach", "world.cell.damaged_estate", "world.cell.black_beach", 15, 1, None));
        routes.push(road("world.portal.damaged_estate_to_river_landing", "world.cell.damaged_estate", "world.cell.river_landing", 30, 2, None));
        routes.push(road("world.portal.river_landing_to_damaged_estate", "world.cell.river_landing", "world.cell.damaged_estate", 30, 2, None));
        routes.push(road("world.portal.river_landing_to_reception_terrace", "world.cell.river_landing", "world.cell.reception_terrace", 45, 3, None));
        routes.push(road("world.portal.reception_terrace_to_river_landing", "world.cell.reception_terrace", "world.cell.river_landing", 45, 3, None));
        routes.push(road("world.portal.black_beach_to_reception_terrace", "world.cell.black_beach", "world.cell.reception_terrace", 20, 4, Some("discovery.map_table.tidal_cut")));
        routes.push(road("world.portal.reception_terrace_to_black_beach", "world.cell.reception_terrace", "world.cell.black_beach", 20, 4, Some("discovery.map_table.tidal_cut")));
        routes.push(road("world.portal.reception_terrace_to_tomb_reception", "world.cell.reception_terrace", "world.cell.tomb_reception", 10, 3, None));
        routes.push(road("world.portal.tomb_reception_to_reception_terrace", "world.cell.tomb_reception", "world.cell.reception_terrace", 10, 3, None));
        routes.push(road("world.portal.tomb_reception_to_tomb_archive_core", "world.cell.tomb_reception", "world.cell.tomb_archive_core", 10, 5, Some("observation.tomb_reception.true_name")));
        routes.push(road("world.portal.tomb_archive_core_to_tomb_reception", "world.cell.tomb_archive_core", "world.cell.tomb_reception", 10, 5, Some("observation.tomb_reception.true_name")));
        Geography { locations, routes }
    }

    /// The position of the first cell carrying this ID.
    fn location_index(&self, id: &str) -> (r: Option<usize>)
        ensures
            match r {
                Some(i) => location_at(*self, id@, i as int),
                None => !has_location(*self, id@),
            },
    {
        let mut i: usize = 0;
        while i < self.locations.len()
            invariant
                i <= self.locations@.len(),
                forall|j: int| 0 <= j < i ==> (#[trigger] self.locations@[j]).id@ != id@,
            decreases self.locations@.len() - i,
        {
            if str_eq(self.locations[i].id.as_str(), id) {
                return Some(i);
            }
            i = i + 1;
        }
        None
    }

    /// The cell with this ID, if the graph carries one.
    pub fn location(&self, id: &str) -> (r: Option<&LocationRecord>)
        ensures
            match r {
                Some(l) => l.id@ == id@ && self.locations@.contains(*l) && exists|i: int|
                    location_at(*self, id@, i) && self.locations@[i] == *l,
                None => !has_location(*self, id@),
            },
    {
        match self.location_index(id) {
            Some(i) => Some(&self.locations[i]),
            None => None,
        }
    }

    /// The road with this ID, if the graph carries one.
    pub fn route(&self, id: &str) -> (r: Option<&RouteOption>)
        ensures
            match r {
                Some(x) => names_road(self.routes@, id@) && *x == named(self.routes@, id@) && x.id@ == id@
                    && self.routes@.contains(*x),
                None => !names_road(self.routes@, id@) && forall|i: int|
                    0 <= i < self.routes@.len() ==> (#[trigger] self.routes@[i]).id@ != id@,
            },
    {
        let mut i: usize = 0;
        while i < self.routes.len()
            invariant
                i <= self.routes@.len(),
                forall|j: int| 0 <= j < i ==> (#[trigger] self.routes@[j]).id@ != id@,
            decreases self.routes@.len() - i,
        {
            if str_eq(self.routes[i].id.as_str(), id) {
                proof {
                    lemma_road_at_unique(self.routes@, id@, i as int);
                }
                return Some(&self.routes[i]);
            }
            i = i + 1;
        }
        None
    }

    /// The faction content says holds this cell, if any.
    pub fn controller(&self, cell_id: &str) -> (r: Option<String>)
        ensures
            match r {
                Some(c) => authored_controller(self.locations@, cell_id@) == Some(c@),
                None => authored_controller(self.locations@, cell_id@) is None,
            },
    {
        let mut i: usize = 0;
        proof {
            assert(self.locations@.skip(0) =~= self.locations@);
        }
        while i < self.locations.len()
            invariant
                i <= self.locations@.len(),
                authored_controller(self.locations@, cell_id@) == authored_controller(
                    self.locations@.skip(i as int),
                    cell_id@,
                ),
            decreases self.locations@.len() - i,
        {
            proof {
                assert(self.locations@.skip(i as int).drop_first() =~= self.locations@.skip(i + 1));
                assert(self.locations@.skip(i as int)[0] == self.locations@[i as int]);
            }
            if str_eq(self.locations[i].id.as_str(), cell_id) {
                return match &self.locations[i].controller {
                    Some(c) => Some(c.clone()),
                    None => None,
                };
            }
            i = i + 1;
        }
        None
    }

    /// Who holds a cell: the save's override where there is one, the
    /// authored controller otherwise. `None` is unheld ground.
    pub fn held_by(&self, cell_id: &str, ownership: &StrMap<String>) -> (r: Option<String>)
        ensures
            match r {
                Some(h) => holder(*self, ownership.contents(), cell_id@) == Some(h@),
                None => holder(*self, ownership.contents(), cell_id@) is None,
            },
    {
        match ownership.get(cell_id) {
            Some(owner) => Some(owner.clone()),
            None => self.controller(cell_id),
        }
    }

    /// Every cell ID on the graph, in authored order.
    pub fn all_location_ids(&self) -> (r: Vec<String>)
        ensures
            r@.len() == self.locations@.len(),
            forall|i: int| 0 <= i < r@.len() ==> #[trigger] r@[i]@ == self.locations@[i].id@,
    {
        let mut r: Vec<String> = Vec::new();
        let mut i: usize = 0;
        while i < self.locations.len()
            invariant
                i <= self.locations@.len(),
                r@.len() == i,
                forall|j: int| 0 <= j < i ==> #[trigger] r@[j]@ == self.locations@[j].id@,
            decreases self.locations@.len() - i,
        {
            r.push(self.locations[i].id.clone());
            i = i + 1;
        }
        r
    }

    /// Whether a road may be walked with these gates open.
    pub fn is_usable(route: &RouteOption, open_gates: &StrSet) -> (r: bool)
        ensures
            r == usable(*route, open_gates@),
    {
        match &route.gate {
            None => true,
            Some(g) => open_gates.contains(g.as_str()),
        }
    }

    /// Shorten the known walks by every road once: where a usable road leads
    /// from a cell to one with a known walk, the cell's walk becomes one road
    /// longer than that, if that is shorter. Says whether anything changed.
    fn relax(&self, d: &mut Vec<Option<u32>>, to: &str, open_gates: &StrSet) -> (changed: bool)
        requires
            walks_known(*self, open_gates@, to@, old(d)@),
        ensures
            walks_known(*self, open_gates@, to@, final(d)@),
            changed ==> potential(final(d)@) < potential(old(d)@),
            !changed ==> final(d)@ == old(d)@ && settled(*self, open_gates@, final(d)@),
    {
        let ghost start = d@;
        let mut changed = false;
        let mut k: usize = 0;
        while k < self.routes.len()
            invariant
                k <= self.routes@.len(),
                walks_known(*self, open_gates@, to@, d@),
                changed ==> potential(d@) < potential(start),
                !changed ==> d@ == start,
                !changed ==> forall|j: int| 0 <= j < k ==> #[trigger] road_settled(*self, open_gates@, d@, j),
            decreases self.routes@.len() - k,
        {
            let r = &self.routes[k];
            let ghost ks = k as int;
            let ghost before = d@;
            let usable_now = Geography::is_usable(r, open_gates);
            let from_at = self.location_index(r.from_location_id.as_str());
            let to_at = self.location_index(r.to_location_id.as_str());
            if usable_now {
                match (from_at, to_at) {
                    (Some(a), Some(b)) => {
                        match d[b] {
                            Some(m) => {
                                if m < u32::MAX {
                                    let better = match d[a] {
                                        Some(x) => m + 1 < x,
                                        None => true,
                                    };
                                    if better {
                                        proof {
                                            assert(self.routes@[ks] == *r);
                                            assert(connects(self.routes@, open_gates@, r.to_location_id@, to@, m as nat));
                                            assert(connects(self.routes@, open_gates@, self.locations@[a as int].id@, to@, (m + 1) as nat));
                                            assert(joined(*self, open_gates@, r.to_location_id@, to@, m as nat));
                                            assert(has_location(*self, r.from_location_id@)) by {
                                                assert(self.locations@[a as int].id@ == r.from_location_id@);
                                            }
                                            lemma_road_then_walk(*self, open_gates@, r.from_location_id@, to@, ks, m as nat);
                                            lemma_potential_update(before, a as int, Some((m + 1) as u32));
                                            if self.locations@[a as int].id@ == to@ {
                                                assert(before[a as int] == Some(0u32));
                                            }
                                        }
                                        d.set(a, Some(m + 1));
                                        changed = true;
                                    }
                                }
                            },
                            None => {},
                        }
                    },
                    _ => {},
                }
            }
            proof {
                if !changed {
                    assert(road_settled(*self, open_gates@, d@, ks)) by {
                        if usable(self.routes@[ks], open_gates@) {
                            assert forall|a2: int, b2: int|
                                location_at(*self, self.routes@[ks].from_location_id@, a2) && location_at(
                                    *self,
                                    self.routes@[ks].to_location_id@,
                                    b2,
                                ) && d@[b2] is Some && d@[b2]->0 < u32::MAX implies d@[a2] is Some && d@[a2]->0 <= d@[b2]->0 + 1 by {
                                match from_at {
                                    Some(a) => lemma_location_at_unique(*self, r.from_location_id@, a as int, a2),
                                    None => {},
                                }
                                match to_at {
                                    Some(b) => lemma_location_at_unique(*self, r.to_location_id@, b as int, b2),
                                    None => {},
                                }
                            }
                        }
                    }
                }
            }
            k = k + 1;
        }
        changed
    }

    /// For every cell, the fewest usable roads known to lead from it to
    /// `to`: each entry a real walk, and no road able to shorten any.
    fn distances_to(&self, to: &str, open_gates: &StrSet) -> (d: Vec<Option<u32>>)
        ensures
            walks_known(*self, open_gates@, to@, d@),
            settled(*self, open_gates@, d@),
    {
        let n = self.locations.len();
        let mut d: Vec<Option<u32>> = Vec::new();
        let mut i: usize = 0;
        while i < n
            invariant
                n == self.locations@.len(),
                i <= n,
                d@.len() == i,
                forall|j: int| 0 <= j < i ==> (#[trigger] d@[j] matches Some(m) ==> m == 0 && self.locations@[j].id@ == to@),
                forall|j: int| 0 <= j < i && self.locations@[j].id@ == to@ ==> #[trigger] d@[j] == Some(0u32),
            decreases n - i,
        {
            if str_eq(self.locations[i].id.as_str(), to) {
                d.push(Some(0));
            } else {
                d.push(None);
            }
            i = i + 1;
        }
        loop
            invariant
                walks_known(*self, open_gates@, to@, d@),
            ensures
                walks_known(*self, open_gates@, to@, d@),
                settled(*self, open_gates@, d@),
            decreases potential(d@),
        {
            let changed = self.relax(&mut d, to, open_gates);
            if !changed {
                break;
            }
        }
        d
    }

    /// How many usable roads the shortest walk from `from` to `to` through
    /// the graph's own cells takes: every number it gives is the length of
    /// such a walk, and it gives one no longer than any such walk of at most
    /// the longest representable number of roads. `None` when there is none.
    pub fn step_distance(&self, from: &str, to: &str, open_gates: &StrSet) -> (r: Option<u32>)
        ensures
            r matches Some(n) ==> connects(self.routes@, open_gates@, from@, to@, n as nat) && joined(
                *self,
                open_gates@,
                from@,
                to@,
                n as nat,
            ) && has_location(*self, from@),
            forall|n: nat| n <= u32::MAX && #[trigger] joined(*self, open_gates@, from@, to@, n) ==> r is Some && r->0 <= n,
    {
        let d = self.distances_to(to, open_gates);
        match self.location_index(from) {
            Some(i) => {
                proof {
                    assert forall|n: nat| n <= u32::MAX && #[trigger] joined(*self, open_gates@, from@, to@, n) implies d@[i as int] is Some
                        && d@[i as int]->0 <= n by {
                        lemma_settled_complete(*self, open_gates@, to@, d@, from@, n);
                    }
                }
                d[i]
            },
            None => None,
        }
    }

    /// The first road of a shortest usable walk from `from` to `to` through
    /// the graph's own cells: the first road of the graph that leads to a
    /// cell strictly closer. `None` when already there, when `from` is no
    /// cell of the graph, or when no road leads closer; one is found
    /// whenever such a walk of at most the longest representable number of
    /// roads leads on.
    pub fn next_step_toward(&self, from: &str, to: &str, open_gates: &StrSet) -> (r: Option<&RouteOption>)
        ensures
            r matches Some(x) ==> {
                &&& self.routes@.contains(*x)
                &&& x.from_location_id@ == from@
                &&& from@ != to@
                &&& usable(*x, open_gates@)
                &&& exists|n: nat| connects(self.routes@, open_gates@, x.to_location_id@, to@, n)
            },
            r matches Some(x) ==> exists|j: int| first_closer_road(*self, open_gates@, from@, to@, j) && #[trigger] self.routes@[j] == *x,
            r is None ==> forall|j: int| 0 <= j < self.routes@.len() ==> !#[trigger] closer_road(*self, open_gates@, from@, to@, j),
            from@ != to@ && (exists|n: nat| n <= u32::MAX && #[trigger] joined(*self, open_gates@, from@, to@, n)) ==> r is Some,
    {
        if str_eq(from, to) {
            proof {
                if has_location(*self, from@) {
                    assert(joined(*self, open_gates@, from@, to@, 0));
                }
            }
            return None;
        }
        let d = self.distances_to(to, open_gates);
        let here = match self.location_index(from) {
            Some(i) => i,
            None => return None,
        };
        let want = match d[here] {
            Some(m) => m,
            None => {
                proof {
                    assert forall|n: nat| n <= u32::MAX implies !#[trigger] joined(*self, open_gates@, from@, to@, n) by {
                        if joined(*self, open_gates@, from@, to@, n) {
                            lemma_settled_complete(*self, open_gates@, to@, d@, from@, n);
                        }
                    }
                    assert forall|j: int| 0 <= j < self.routes@.len() implies !#[trigger] closer_road(*self, open_gates@, from@, to@, j) by {
                        if closer_road(*self, open_gates@, from@, to@, j) {
                            let m = choose|m: nat|
                                m < u32::MAX && #[trigger] joined(*self, open_gates@, self.routes@[j].to_location_id@, to@, m) && forall|n: nat|
                                    #[trigger] joined(*self, open_gates@, from@, to@, n) ==> m < n;
                            lemma_road_then_walk(*self, open_gates@, from@, to@, j, m);
                        }
                    }
                }
                return None;
            },
        };
        proof {
            assert forall|n: nat| #[trigger] joined(*self, open_gates@, from@, to@, n) implies want <= n by {
                if n <= u32::MAX {
                    lemma_settled_complete(*self, open_gates@, to@, d@, from@, n);
                }
            }
        }
        let mut k: usize = 0;
        while k < self.routes.len()
            invariant
                walks_known(*self, open_gates@, to@, d@),
                settled(*self, open_gates@, d@),
                location_at(*self, from@, here as int),
                d@[here as int] == Some(want),
                k <= self.routes@.len(),
                from@ != to@,
                forall|n: nat| #[trigger] joined(*self, open_gates@, from@, to@, n) ==> want <= n,
                forall|j: int|
                    0 <= j < k && (#[trigger] self.routes@[j]).from_location_id@ == from@ && usable(self.routes@[j], open_gates@)
                        ==> forall|b: int| #[trigger] location_at(*self, self.routes@[j].to_location_id@, b) ==> !(d@[b] is Some && d@[b]->0 < want),
            decreases self.routes@.len() - k,
        {
            let r = &self.routes[k];
            if str_eq(r.from_location_id.as_str(), from) && Geography::is_usable(r, open_gates) {
                match self.location_index(r.to_location_id.as_str()) {
                    Some(b) => {
                        match d[b] {
                            Some(m) => {
                                if m < want {
                                    proof {
                                        assert(self.routes@[k as int] == *r);
                                        assert(connects(self.routes@, open_gates@, r.to_location_id@, to@, m as nat));
                                        assert(joined(*self, open_gates@, r.to_location_id@, to@, m as nat));
                                        assert(joined(*self, open_gates@, from@, to@, want as nat));
                                        assert(has_location(*self, from@)) by {
                                            assert(self.locations@[here as int].id@ == from@);
                                        }
                                        assert(closer_road(*self, open_gates@, from@, to@, k as int));
                                        assert forall|i: int| 0 <= i < k implies !#[trigger] closer_road(*self, open_gates@, from@, to@, i) by {
                                            if self.routes@[i].from_location_id@ == from@ && usable(self.routes@[i], open_gates@) {
                                                lemma_not_closer(*self, open_gates@, from@, to@, d@, i, want as nat);
                                            }
                                        }
                                        assert(first_closer_road(*self, open_gates@, from@, to@, k as int));
                                    }
                                    return Some(r);
                                }
                            },
                            None => {},
                        }
                        proof {
                            assert forall|b2: int| #[trigger] location_at(*self, self.routes@[k as int].to_location_id@, b2) implies !(d@[b2] is Some
                                && d@[b2]->0 < want) by {
                                lemma_location_at_unique(*self, r.to_location_id@, b as int, b2);
                            }
                        }
                    },
                    None => {},
                }
            }
            k = k + 1;
        }
        proof {
            assert(joined(*self, open_gates@, from@, to@, want as nat));
            let k2 = choose|k2: int|
                0 <= k2 < self.routes@.len() && (#[trigger] self.routes@[k2]).from_location_id@ == from@ && usable(
                    self.routes@[k2],
                    open_gates@,
                ) && joined(*self, open_gates@, self.routes@[k2].to_location_id@, to@, (want - 1) as nat);
            let b_id = self.routes@[k2].to_location_id@;
            assert(has_location(*self, b_id));
            let j = choose|j: int| 0 <= j < self.locations@.len() && #[trigger] self.locations@[j].id@ == b_id;
            lemma_first_location(*self, b_id, j);
            let b = choose|b: int| #[trigger] location_at(*self, b_id, b);
            lemma_settled_complete(*self, open_gates@, to@, d@, b_id, (want - 1) as nat);
            assert(d@[b] is Some && d@[b]->0 < want);
        }
        None
    }

    /// How dangerous a road is right now: its authored risk, raised while its
    /// two ends are held by different factions.
    pub fn effective_risk(&self, route: &RouteOption, ownership: &StrMap<String>) -> (r: u8)
        ensures
            r == risk_now(*self, *route, ownership.contents()),
    {
        let a = self.held_by(route.from_location_id.as_str(), ownership);
        let b = self.held_by(route.to_location_id.as_str(), ownership);
        let contested = a.is_some() && b.is_some() && !opt_str_eq(&a, &b);
        if contested {
            route.risk_level.saturating_add(CONTESTED_RISK_BONUS)
        } else {
            route.risk_level
        }
    }
}

} // verus!
