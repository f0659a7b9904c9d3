//! What a faction wants: the six goals, and how the board and the player's
//! directives are read into a list of them each strategic hour.

use vstd::prelude::*;

use crate::directive::{DirectiveStatus, Intent, StrategicDirective};
use crate::expedition::ExpeditionState;
use crate::geography::{holder, Geography};
use crate::keyed::{StrMap, StrSet};
use crate::text::str_eq;

verus! {

/// The six things a faction can want in an hour.
#[derive(Clone, Copy, Debug, PartialEq, Eq, Structural)]
pub enum Goal {
    Expand,
    Pressure,
    Recover,
    Consolidate,
    Develop,
    Withdraw,
}

impl Goal {
    pub const ALL: [Goal; 6] = [
        Goal::Expand,
        Goal::Pressure,
        Goal::Recover,
        Goal::Consolidate,
        Goal::Develop,
        Goal::Withdraw,
    ];
}

/// A goal's place in `Goal::ALL`.
pub open spec fn goal_index(g: Goal) -> int {
    match g {
        Goal::Expand => 0,
        Goal::Pressure => 1,
        Goal::Recover => 2,
        Goal::Consolidate => 3,
        Goal::Develop => 4,
        Goal::Withdraw => 5,
    }
}

/// How much a standing directive of one intent pulls on each goal, in
/// `Goal::ALL` order. Positive argues for the goal, negative against.
pub open spec fn intent_row(intent: Intent) -> Seq<int> {
    match intent {
        Intent::Protect => seq![0, 0, 0, 2, 0, -1],
        Intent::Supply => seq![0, 0, 1, 0, 2, 0],
        Intent::Develop => seq![0, 0, 1, 0, 2, 0],
        Intent::Expand => seq![2, 0, 0, 0, 0, -1],
        Intent::Pressure => seq![0, 2, 0, 0, 0, -1],
        Intent::Attack => seq![1, 2, 0, 0, 0, -2],
        Intent::Support => seq![0, 0, 1, 1, 1, 0],
        Intent::Investigate => seq![0, 0, 0, 0, 0, 0],
        Intent::Avoid => seq![-2, -2, 0, 0, 0, 0],
        Intent::Withdraw => seq![-1, -1, 0, -1, 0, 2],
    }
}

/// The row of the intent-to-goal table for one intent.
pub fn intent_goal_row(intent: Intent) -> (r: [i32; 6])
    ensures
        r@.len() == 6,
        forall|i: int| 0 <= i < 6 ==> r@[i] as int == #[trigger] intent_row(intent)[i],
{
    let r: [i32; 6] = match intent {
        Intent::Protect => [0, 0, 0, 2, 0, -1],
        Intent::Supply => [0, 0, 1, 0, 2, 0],
        Intent::Develop => [0, 0, 1, 0, 2, 0],
        Intent::Expand => [2, 0, 0, 0, 0, -1],
        Intent::Pressure => [0, 2, 0, 0, 0, -1],
        Intent::Attack => [1, 2, 0, 0, 0, -2],
        Intent::Support => [0, 0, 1, 1, 1, 0],
        Intent::Investigate => [0, 0, 0, 0, 0, 0],
        Intent::Avoid => [-2, -2, 0, 0, 0, 0],
        Intent::Withdraw => [-1, -1, 0, -1, 0, 2],
    };
    r
}

/// The cell is one of the graph's and, by the save over the authored owner,
/// this faction holds it.
pub open spec fn holds(s: ExpeditionState, geography: Geography, faction_id: Seq<char>, cell: Seq<char>) -> bool {
    &&& exists|i: int| 0 <= i < geography.locations@.len() && #[trigger] geography.locations@[i].id@ == cell
    &&& holder(geography, s.ownership.contents(), cell) == Some(faction_id)
}

/// The cell lies one ungated road out from this faction's ground and is not
/// its own.
pub open spec fn borders(s: ExpeditionState, geography: Geography, faction_id: Seq<char>, cell: Seq<char>) -> bool {
    exists|j: int|
        0 <= j < geography.routes@.len() && (#[trigger] geography.routes@[j]).gate is None && holds(
            s,
            geography,
            faction_id,
            geography.routes@[j].from_location_id@,
        ) && !holds(s, geography, faction_id, geography.routes@[j].to_location_id@) && geography.routes@[j].to_location_id@ == cell
}

/// One faction's reading of the board: the ground it holds, and the ground
/// one ungated road out from it that nobody holds and that a rival holds.
/// A faction's border does not depend on what the party has found.
pub struct BoardView {
    pub faction_id: String,
    pub held: StrSet,
    pub open_frontier: StrSet,
    /// Border cells a rival holds, with the rival.
    pub contested_frontier: StrMap<String>,
}

/// `view` is a faction's reading of the board: the ground it holds, the
/// border ground nobody holds, and the border ground a rival holds, with
/// the rival.
pub open spec fn view_of(view: BoardView, state: ExpeditionState, faction_id: Seq<char>, geography: Geography) -> bool {
    &&& view.faction_id@ == faction_id
    &&& view.held@ == Set::new(|c: Seq<char>| holds(state, geography, faction_id, c))
    &&& view.open_frontier@ == Set::new(
        |c: Seq<char>| borders(state, geography, faction_id, c) && holder(geography, state.ownership.contents(), c) is None,
    )
    &&& view.contested_frontier.contents().dom() == Set::new(
        |c: Seq<char>|
            borders(state, geography, faction_id, c) && holder(geography, state.ownership.contents(), c) is Some && holder(
                geography,
                state.ownership.contents(),
                c,
            ) != Some(faction_id),
    )
    &&& forall|c: Seq<char>|
        #[trigger] view.contested_frontier.contents().contains_key(c) ==> holder(geography, state.ownership.contents(), c) == Some(
            view.contested_frontier.contents()[c]@,
        )
}

impl BoardView {
    pub fn of(faction_id: &str, state: &ExpeditionState, geography: &Geography) -> (r: BoardView)
        ensures
            view_of(r, *state, faction_id@, *geography),
    {
        let mut held = StrSet::new();
        let mut i: usize = 0;
        while i < geography.locations.len()
            invariant
                i <= geography.locations@.len(),
                held@ == Set::new(
                    |c: Seq<char>|
                        (exists|k: int| 0 <= k < i && #[trigger] geography.locations@[k].id@ == c) && holder(
                            *geography,
                            state.ownership.contents(),
                            c,
                        ) == Some(faction_id@),
                ),
            decreases geography.locations@.len() - i,
        {
            let cell = &geography.locations[i].id;
            let mine = match geography.held_by(cell.as_str(), &state.ownership) {
                Some(h) => str_eq(h.as_str(), faction_id),
                None => false,
            };
            let ghost before = held@;
            if mine {
                held.insert(cell.clone());
            }
            proof {
                assert forall|c: Seq<char>| #[trigger] held@.contains(c) == ((exists|k: int| 0 <= k < i + 1 && #[trigger] geography.locations@[k].id@ == c)
                    && holder(*geography, state.ownership.contents(), c) == Some(faction_id@)) by {
                    if exists|k: int| 0 <= k < i + 1 && #[trigger] geography.locations@[k].id@ == c {
                        let k = choose|k: int| 0 <= k < i + 1 && #[trigger] geography.locations@[k].id@ == c;
                        if k == i {
                            assert(c == cell@);
                        }
                    }
                    if c == cell@ {
                        assert(geography.locations@[i as int].id@ == c);
                    }
                }
                assert(held@ =~= Set::new(
                    |c: Seq<char>|
                        (exists|k: int| 0 <= k < i + 1 && #[trigger] geography.locations@[k].id@ == c) && holder(
                            *geography,
                            state.ownership.contents(),
                            c,
                        ) == Some(faction_id@),
                ));
            }
            i = i + 1;
        }
        proof {
            assert(held@ =~= Set::new(|c: Seq<char>| holds(*state, *geography, faction_id@, c)));
        }
        let mut open_frontier = StrSet::new();
        let mut contested_frontier: StrMap<String> = StrMap::new();
        let mut j: usize = 0;
        while j < geography.routes.len()
            invariant
                j <= geography.routes@.len(),
                held@ == Set::new(|c: Seq<char>| holds(*state, *geography, faction_id@, c)),
                open_frontier@ == Set::new(
                    |c: Seq<char>|
                        (exists|k: int|
                            0 <= k < j && (#[trigger] geography.routes@[k]).gate is None && holds(
                                *state,
                                *geography,
                                faction_id@,
                                geography.routes@[k].from_location_id@,
                            ) && !holds(*state, *geography, faction_id@, geography.routes@[k].to_location_id@)
                                && geography.routes@[k].to_location_id@ == c) && holder(*geography, state.ownership.contents(), c) is None,
                ),
                contested_frontier.contents().dom() == Set::new(
                    |c: Seq<char>|
                        (exists|k: int|
                            0 <= k < j && (#[trigger] geography.routes@[k]).gate is None && holds(
                                *state,
                                *geography,
                                faction_id@,
                                geography.routes@[k].from_location_id@,
                            ) && !holds(*state, *geography, faction_id@, geography.routes@[k].to_location_id@)
                                && geography.routes@[k].to_location_id@ == c) && holder(*geography, state.ownership.contents(), c) is Some
                            && holder(*geography, state.ownership.contents(), c) != Some(faction_id@),
                ),
                forall|c: Seq<char>|
                    #[trigger] contested_frontier.contents().contains_key(c) ==> holder(*geography, state.ownership.contents(), c)
                        == Some(contested_frontier.contents()[c]@),
            decreases geography.routes@.len() - j,
        {
            let road = &geography.routes[j];
            let ghost open_before = open_frontier@;
            let ghost contested_before = contested_frontier.contents();
            let border = road.gate.is_none() && held.contains(road.from_location_id.as_str()) && !held.contains(
                road.to_location_id.as_str(),
            );
            if border {
                match geography.held_by(road.to_location_id.as_str(), &state.ownership) {
                    None => {
                        open_frontier.insert(road.to_location_id.clone());
                    },
                    Some(h) => {
                        if !str_eq(h.as_str(), faction_id) {
                            contested_frontier.insert(road.to_location_id.clone(), h);
                        }
                    },
                }
            }
            proof {
                let cell = road.to_location_id@;
                let step = road.gate is None && holds(*state, *geography, faction_id@, road.from_location_id@) && !holds(
                    *state,
                    *geography,
                    faction_id@,
                    cell,
                );
                assert(border == step);
                assert forall|c: Seq<char>|
                    #![trigger open_frontier@.contains(c)]
                    #![trigger contested_frontier.contents().dom().contains(c)]
                    (exists|k: int|
                        0 <= k < j + 1 && (#[trigger] geography.routes@[k]).gate is None && holds(
                            *state,
                            *geography,
                            faction_id@,
                            geography.routes@[k].from_location_id@,
                        ) && !holds(*state, *geography, faction_id@, geography.routes@[k].to_location_id@)
                            && geography.routes@[k].to_location_id@ == c) == ((exists|k: int|
                        0 <= k < j && (#[trigger] geography.routes@[k]).gate is None && holds(
                            *state,
                            *geography,
                            faction_id@,
                            geography.routes@[k].from_location_id@,
                        ) && !holds(*state, *geography, faction_id@, geography.routes@[k].to_location_id@)
                            && geography.routes@[k].to_location_id@ == c) || (step && c == cell)) by {
                    if exists|k: int|
                        0 <= k < j + 1 && (#[trigger] geography.routes@[k]).gate is None && holds(
                            *state,
                            *geography,
                            faction_id@,
                            geography.routes@[k].from_location_id@,
                        ) && !holds(*state, *geography, faction_id@, geography.routes@[k].to_location_id@)
                            && geography.routes@[k].to_location_id@ == c {
                        let k = choose|k: int|
                            0 <= k < j + 1 && (#[trigger] geography.routes@[k]).gate is None && holds(
                                *state,
                                *geography,
                                faction_id@,
                                geography.routes@[k].from_location_id@,
                            ) && !holds(*state, *geography, faction_id@, geography.routes@[k].to_location_id@)
                                && geography.routes@[k].to_location_id@ == c;
                        if k < j {
                        }
                    }
                    if step && c == cell {
                        assert(geography.routes@[j as int] == *road);
                    }
                }
                assert(open_frontier@ =~= Set::new(
                    |c: Seq<char>|
                        (exists|k: int|
                            0 <= k < j + 1 && (#[trigger] geography.routes@[k]).gate is None && holds(
                                *state,
                                *geography,
                                faction_id@,
                                geography.routes@[k].from_location_id@,
                            ) && !holds(*state, *geography, faction_id@, geography.routes@[k].to_location_id@)
                                && geography.routes@[k].to_location_id@ == c) && holder(*geography, state.ownership.contents(), c) is None,
                ));
                assert(contested_frontier.contents().dom() =~= Set::new(
                    |c: Seq<char>|
                        (exists|k: int|
                            0 <= k < j + 1 && (#[trigger] geography.routes@[k]).gate is None && holds(
                                *state,
                                *geography,
                                faction_id@,
                                geography.routes@[k].from_location_id@,
                            ) && !holds(*state, *geography, faction_id@, geography.routes@[k].to_location_id@)
                                && geography.routes@[k].to_location_id@ == c) && holder(*geography, state.ownership.contents(), c) is Some
                            && holder(*geography, state.ownership.contents(), c) != Some(faction_id@),
                ));
            }
            j = j + 1;
        }
        proof {
            assert(open_frontier@ =~= Set::new(
                |c: Seq<char>| borders(*state, *geography, faction_id@, c) && holder(*geography, state.ownership.contents(), c) is None,
            ));
            assert(contested_frontier.contents().dom() =~= Set::new(
                |c: Seq<char>|
                    borders(*state, *geography, faction_id@, c) && holder(*geography, state.ownership.contents(), c) is Some
                        && holder(*geography, state.ownership.contents(), c) != Some(faction_id@),
            ));
        }
        BoardView { faction_id: crate::text::owned(faction_id), held, open_frontier, contested_frontier }
    }
}

/// How much one standing directive weighs against the board. Provisional.
pub const DIRECTIVE_WEIGHT: i128 = 2;

/// The goal at a place in `Goal::ALL`.
pub open spec fn goal_at(k: int) -> Goal {
    if k == 0 {
        Goal::Expand
    } else if k == 1 {
        Goal::Pressure
    } else if k == 2 {
        Goal::Recover
    } else if k == 3 {
        Goal::Consolidate
    } else if k == 4 {
        Goal::Develop
    } else {
        Goal::Withdraw
    }
}

/// What the board alone argues for: a faction with no ground recovers; one
/// with ground develops and recovers; open border ground invites expansion
/// and a rival on the border invites pressure.
pub open spec fn board_score(held: bool, open: bool, contested: bool, g: Goal) -> int {
    match g {
        Goal::Recover => if held { 1 } else { 3 },
        Goal::Develop => if held { 2 } else { 0 },
        Goal::Expand => if held && open { 2 } else { 0 },
        Goal::Pressure => if held && contested { 1 } else { 0 },
        Goal::Consolidate => 0,
        Goal::Withdraw => 0,
    }
}

/// What a faction's standing directives, among the first `n` entries, pull
/// toward one goal.
pub open spec fn directive_pull(ds: Seq<(Seq<char>, StrategicDirective)>, faction_id: Seq<char>, g: Goal, n: int) -> int
    decreases n,
{
    if n <= 0 {
        0
    } else {
        let d = ds[n - 1].1;
        directive_pull(ds, faction_id, g, n - 1) + if d.faction_id@ == faction_id && d.state == DirectiveStatus::Active {
            intent_row(d.intent)[goal_index(g)] * DIRECTIVE_WEIGHT
        } else {
            0
        }
    }
}

/// A goal's score for one faction: the board's argument and its directives'.
pub open spec fn goal_score(s: ExpeditionState, view: BoardView, g: Goal) -> int {
    board_score(
        view.held@ != Set::<Seq<char>>::empty(),
        view.open_frontier@ != Set::<Seq<char>>::empty(),
        view.contested_frontier.contents().dom() != Set::<Seq<char>>::empty(),
        g,
    ) + directive_pull(s.directives@, view.faction_id@, g, s.directives@.len() as int)
}

/// `a` ranks ahead of `b`: a higher score, or the same score and earlier in
/// `Goal::ALL`.
pub open spec fn ranks_ahead(s: ExpeditionState, view: BoardView, a: Goal, b: Goal) -> bool {
    goal_score(s, view, a) > goal_score(s, view, b) || (goal_score(s, view, a) == goal_score(s, view, b) && goal_index(a) < goal_index(b))
}

fn goal_of(k: usize) -> (g: Goal)
    requires
        k < 6,
    ensures
        g == goal_at(k as int),
        goal_index(g) == k,
{
    if k == 0 {
        Goal::Expand
    } else if k == 1 {
        Goal::Pressure
    } else if k == 2 {
        Goal::Recover
    } else if k == 3 {
        Goal::Consolidate
    } else if k == 4 {
        Goal::Develop
    } else {
        Goal::Withdraw
    }
}

fn score_of(state: &ExpeditionState, view: &BoardView, k: usize) -> (r: i128)
    requires
        k < 6,
    ensures
        r == goal_score(*state, *view, goal_at(k as int)),
{
    let g = goal_of(k);
    let held = !view.held.is_empty();
    let base: i128 = match g {
        Goal::Recover => if held { 1 } else { 3 },
        Goal::Develop => if held { 2 } else { 0 },
        Goal::Expand => if held && !view.open_frontier.is_empty() { 2 } else { 0 },
        Goal::Pressure => if held && view.contested_frontier.len() > 0 { 1 } else { 0 },
        Goal::Consolidate => 0,
        Goal::Withdraw => 0,
    };
    proof {
        crate::keyed::lemma_as_map_dom(view.contested_frontier@, Seq::empty());
        if view.contested_frontier@.len() > 0 {
            crate::keyed::lemma_as_map_dom(view.contested_frontier@, view.contested_frontier@[0].0);
            assert(view.contested_frontier.contents().dom().contains(view.contested_frontier@[0].0));
        } else {
            assert(view.contested_frontier.contents().dom() =~= Set::<Seq<char>>::empty()) by {
                assert forall|c: Seq<char>| !view.contested_frontier.contents().dom().contains(c) by {
                    crate::keyed::lemma_as_map_dom(view.contested_frontier@, c);
                }
            }
        }
    }
    let mut pull: i128 = 0;
    let mut i: usize = 0;
    let n = state.directives.len();
    while i < n
        invariant
            n == state.directives@.len(),
            i <= state.directives@.len(),
            k < 6,
            g == goal_at(k as int),
            pull == directive_pull(state.directives@, view.faction_id@, g, i as int),
            -4 * (i as int) <= pull <= 4 * (i as int),
        decreases state.directives@.len() - i,
    {
        let d = state.directives.value_at(i);
        if str_eq(d.faction_id.as_str(), view.faction_id.as_str()) && d.state == DirectiveStatus::Active {
            let row = intent_goal_row(d.intent);
            proof {
                assert(-2 <= intent_row(d.intent)[k as int] <= 2);
            }
            pull = pull + (row[k] as i128) * DIRECTIVE_WEIGHT;
        }
        i = i + 1;
    }
    base + pull
}

/// The goals a faction holds on a board: none for a faction the save does
/// not carry or that is gone; otherwise every goal that scores, each once,
/// ranked.
pub open spec fn goals_chosen(state: ExpeditionState, view: BoardView, r: Seq<Goal>) -> bool {
    &&& (!state.factions.contents().contains_key(view.faction_id@) || state.factions.contents()[view.faction_id@].eliminated ==> r.len()
        == 0)
    &&& (state.factions.contents().contains_key(view.faction_id@) && !state.factions.contents()[view.faction_id@].eliminated ==> {
        &&& forall|g: Goal| r.contains(g) <==> goal_score(state, view, g) > 0
        &&& forall|i: int, j: int| 0 <= i < j < r.len() ==> ranks_ahead(state, view, #[trigger] r[i], #[trigger] r[j])
    })
}

/// What a faction wants this hour, best first: every goal whose score is
/// above zero, ranked by score with `Goal::ALL` order breaking ties. A
/// faction the save does not carry, or one that is eliminated, wants nothing.
pub fn choose_goals(state: &ExpeditionState, view: &BoardView) -> (r: Vec<Goal>)
    ensures
        goals_chosen(*state, *view, r@),
{
    let alive = match state.factions.get(view.faction_id.as_str()) {
        Some(f) => !f.eliminated,
        None => false,
    };
    let mut goals: Vec<Goal> = Vec::new();
    if !alive {
        return goals;
    }
    let mut scores: Vec<i128> = Vec::new();
    let mut k: usize = 0;
    while k < 6
        invariant
            k <= 6,
            goals@.len() == scores@.len(),
            forall|i: int| 0 <= i < goals@.len() ==> scores@[i] == goal_score(*state, *view, #[trigger] goals@[i]),
            forall|g: Goal| goals@.contains(g) <==> (goal_index(g) < k && goal_score(*state, *view, g) > 0),
            forall|i: int, j: int| 0 <= i < j < goals@.len() ==> ranks_ahead(*state, *view, #[trigger] goals@[i], #[trigger] goals@[j]),
            forall|i: int| 0 <= i < goals@.len() ==> goal_index(#[trigger] goals@[i]) < k,
        decreases 6 - k,
    {
        let g = goal_of(k);
        let sc = score_of(state, view, k);
        if sc > 0 {
            let mut p: usize = 0;
            while p < goals.len() && scores[p] >= sc
                invariant
                    p <= goals@.len(),
                    goals@.len() == scores@.len(),
                    forall|i: int| 0 <= i < p ==> #[trigger] scores@[i] >= sc,
                decreases goals@.len() - p,
            {
                p = p + 1;
            }
            let ghost before = goals@;
            goals.insert(p, g);
            scores.insert(p, sc);
            proof {
                assert forall|x: Goal| goals@.contains(x) <==> (goal_index(x) < k + 1 && goal_score(*state, *view, x) > 0) by {
                    if goals@.contains(x) {
                        let i = choose|i: int| 0 <= i < goals@.len() && goals@[i] == x;
                        if i < p {
                            assert(before[i] == x);
                            assert(before.contains(x));
                        } else if i > p {
                            assert(before[i - 1] == x);
                            assert(before.contains(x));
                        } else {
                            assert(x == g);
                        }
                    }
                    if goal_index(x) < k + 1 && goal_score(*state, *view, x) > 0 {
                        if goal_index(x) == k {
                            assert(x == g);
                            assert(goals@[p as int] == g);
                            assert(goals@.contains(x));
                        } else {
                            assert(before.contains(x));
                            let i = choose|i: int| 0 <= i < before.len() && before[i] == x;
                            if i < p {
                                assert(goals@[i] == x);
                            } else {
                                assert(goals@[i + 1] == x);
                            }
                            assert(goals@.contains(x));
                        }
                    }
                }
                assert forall|i: int, j: int| 0 <= i < j < goals@.len() implies ranks_ahead(*state, *view, #[trigger] goals@[i], #[trigger] goals@[j]) by {
                    if i < p && j == p {
                        assert(scores@[i] >= sc);
                    } else if i == p && j > p {
                        if p < before.len() {
                            assert(scores@[p + 1] < sc);
                            if j > p + 1 {
                                assert(ranks_ahead(*state, *view, before[p as int], before[j - 1]));
                            }
                        }
                    } else if i < p && j > p {
                        assert(ranks_ahead(*state, *view, before[i], before[j - 1]));
                    } else if i > p && j > p {
                        assert(ranks_ahead(*state, *view, before[i - 1], before[j - 1]));
                    }
                }
            }
        } else {
            proof {
                assert forall|x: Goal| goals@.contains(x) <==> (goal_index(x) < k + 1 && goal_score(*state, *view, x) > 0) by {
                    if goal_index(x) == k {
                        assert(x == g);
                    }
                }
            }
        }
        k = k + 1;
    }
    proof {
        assert forall|g: Goal| goals@.contains(g) <==> goal_score(*state, *view, g) > 0 by {
            assert(goal_index(g) < 6);
        }
    }
    goals
}

} // verus!
