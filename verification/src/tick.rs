//! The strategic hour: what the island can report having done, the draws a
//! faction is entitled to in an hour, and the clock that counts the hours.

use vstd::prelude::*;

use crate::action::{act_on_goals, goals_acted, ActionSkipReason};
use crate::building::BuildingDefinitions;
use crate::elimination::{exhaustion_swept, RecoveryLink};
use crate::expedition::ExpeditionState;
use crate::faction::{FactionDefinitions, FactionState};
use crate::force::{arrivals_resolved, forces_advanced, ForceId, HaltReason};
use crate::geography::Geography;
use crate::journal::{event_text, lemma_push_keeps_the_record, records, stamped, JournalEntry};
use crate::keyed::{keys_of, lemma_as_map_dom, lemma_as_map_value, lemma_update_first, StrMap};
use crate::production::{advance_production, production_advanced, MachineDefinitions, MachineFamily, ProductionSkipReason};
use crate::utility::{choose_goals, goals_chosen, view_of, BoardView, Goal};
use crate::world::{mix, mix_seed};

verus! {

/// Strategic hours in one campaign day.
pub const HOURS_PER_DAY: u8 = 24;

/// Something the island did.
#[derive(Clone, Debug, PartialEq)]
pub enum StrategicEvent {
    /// One strategic hour went by.
    HourPassed { day: u32, hour: u8 },
    /// A force was sent somewhere, with the number of roads planned.
    ForceDeparted {
        force_id: ForceId,
        faction_id: String,
        from_cell_id: String,
        destination_cell_id: String,
        steps: u32,
    },
    /// A force took one hop along one road.
    ForceMoved { force_id: ForceId, faction_id: String, route_id: String, from_cell_id: String, to_cell_id: String },
    /// A force reached where it was sent, carrying its whole composition.
    ForceArrived {
        force_id: ForceId,
        faction_id: String,
        cell_id: String,
        composition: StrMap<u32>,
        strength: u32,
        readiness: u8,
        supply: u32,
    },
    /// A force stopped where it stands.
    ForceHalted { force_id: ForceId, faction_id: String, cell_id: String, reason: HaltReason },
    /// A force reached ground another faction holds and defends.
    ArrivalContested {
        force_id: ForceId,
        faction_id: String,
        cell_id: String,
        held_by: String,
        defender_force_ids: Vec<ForceId>,
        day: u32,
    },
    /// A force's arrival changed who holds a cell.
    ControlTaken {
        force_id: ForceId,
        faction_id: String,
        cell_id: String,
        from: Option<String>,
        building_instance_ids: Vec<String>,
        day: u32,
    },
    /// A faction no longer holds one of its links back.
    RecoveryLinkLost { faction_id: String, link: RecoveryLink },
    /// A faction left the board.
    FactionEliminated { faction_id: String, day: u32 },
    /// A yard turned out a machine.
    MachineProduced { faction_id: String, family: MachineFamily, building_instance_id: String, day: u32 },
    /// A capacity or service rule came due and was paid for.
    ProductionYielded {
        faction_id: String,
        building_instance_id: String,
        rule_id: String,
        output_key: String,
        amount: u32,
        day: u32,
    },
    /// A rule came due and made nothing.
    ProductionSkipped {
        faction_id: String,
        building_instance_id: String,
        rule_id: String,
        reason: ProductionSkipReason,
        day: u32,
    },
    /// A goal could not be acted on.
    ActionSkipped { faction_id: String, goal: Goal, reason: ActionSkipReason, day: u32 },
    /// A faction started a building.
    BuildingStarted { faction_id: String, building_instance_id: String, def_id: String, cell_id: String, day: u32 },
    /// A faction gathered a trickle from its ground.
    Gathered { faction_id: String, resource_key: String, amount: u32, day: u32 },
}

/// The purposes a faction draws for in every hour.
pub const PURPOSES: [&'static str; 3] = ["strategic.economy", "strategic.force", "strategic.diplomacy"];

/// The draw for one purpose of one faction in one hour.
pub open spec fn strategic_draw_spec(rng_seed: u64, day: u32, hour: u8, faction_id: Seq<char>, purpose: Seq<char>) -> u64 {
    mix(mix(rng_seed, day, faction_id, hour as u64), day, purpose, hour as u64)
}

/// One faction's draws for one hour, one per purpose.
#[derive(Clone, Copy, Debug, PartialEq, Eq, Structural)]
pub struct HourDraws {
    pub economy: u64,
    pub force: u64,
    pub diplomacy: u64,
}

/// The draw for one purpose of one faction in one hour: the faction mixed
/// under the day and hour, then the purpose under the same.
pub fn strategic_draw(rng_seed: u64, day: u32, hour: u8, faction_id: &str, purpose: &str) -> (r: u64)
    ensures
        r == strategic_draw_spec(rng_seed, day, hour, faction_id@, purpose@),
{
    let under_faction = mix_seed(rng_seed, day, faction_id, hour as u64);
    mix_seed(under_faction, day, purpose, hour as u64)
}

/// Every purpose's draw for one faction in one hour. Pure: reading the draws
/// makes nothing and folds nothing.
pub fn hour_draws(rng_seed: u64, day: u32, hour: u8, faction_id: &str) -> (r: HourDraws)
    ensures
        r.economy == strategic_draw_spec(rng_seed, day, hour, faction_id@, "strategic.economy"@),
        r.force == strategic_draw_spec(rng_seed, day, hour, faction_id@, "strategic.force"@),
        r.diplomacy == strategic_draw_spec(rng_seed, day, hour, faction_id@, "strategic.diplomacy"@),
{
    HourDraws {
        economy: strategic_draw(rng_seed, day, hour, faction_id, "strategic.economy"),
        force: strategic_draw(rng_seed, day, hour, faction_id, "strategic.force"),
        diplomacy: strategic_draw(rng_seed, day, hour, faction_id, "strategic.diplomacy"),
    }
}

/// The strategic clock: the hour of the day, how many hours have run, and an
/// order-sensitive digest of every draw made.
#[derive(Clone, Copy, Debug, Default, PartialEq, Eq, Structural)]
pub struct StrategicClock {
    pub hour_of_day: u8,
    pub hours_run: u64,
    pub draw_digest: u64,
}

/// The digest after folding one more draw in.
pub open spec fn fold_draw(digest: u64, draw: u64) -> u64 {
    ((digest ^ draw).wrapping_mul(crate::world::FNV_PRIME) << 7u64) | ((digest ^ draw).wrapping_mul(
        crate::world::FNV_PRIME,
    ) >> 57u64)
}

impl StrategicClock {
    /// Fold one draw into the digest.
    pub fn absorb_draw(&mut self, draw: u64)
        ensures
            final(self).draw_digest == fold_draw(old(self).draw_digest, draw),
            final(self).hour_of_day == old(self).hour_of_day,
            final(self).hours_run == old(self).hours_run,
    {
        let mixed = (self.draw_digest ^ draw).wrapping_mul(crate::world::FNV_PRIME);
        self.draw_digest = (mixed << 7u64) | (mixed >> 57u64);
    }
}

/// The digest after one faction's hour of draws, economy then force then
/// diplomacy.
pub open spec fn fold_faction(digest: u64, rng_seed: u64, day: u32, hour: u8, faction_id: Seq<char>) -> u64 {
    fold_draw(
        fold_draw(
            fold_draw(digest, strategic_draw_spec(rng_seed, day, hour, faction_id, "strategic.economy"@)),
            strategic_draw_spec(rng_seed, day, hour, faction_id, "strategic.force"@),
        ),
        strategic_draw_spec(rng_seed, day, hour, faction_id, "strategic.diplomacy"@),
    )
}

/// The digest after the first `n` factions' draws, in order.
pub open spec fn fold_hour(digest: u64, rng_seed: u64, day: u32, hour: u8, factions: Seq<Seq<char>>, n: int) -> u64
    decreases n,
{
    if n <= 0 {
        digest
    } else {
        fold_faction(fold_hour(digest, rng_seed, day, hour, factions, n - 1), rng_seed, day, hour, factions[n - 1])
    }
}

/// The clock one strategic hour later: the hour moves on, wrapping at the
/// day's end into the next day, and one more hour has run.
pub open spec fn next_hour(hour: u8) -> u8 {
    if hour as int + 1 >= HOURS_PER_DAY as int {
        0
    } else {
        (hour + 1) as u8
    }
}

/// The day one strategic hour later.
pub open spec fn next_day(day: u32, hour: u8) -> u32 {
    if hour as int + 1 >= HOURS_PER_DAY as int && day < u32::MAX {
        (day + 1) as u32
    } else {
        day
    }
}

/// Every faction's standing, where it changes at all, only moves toward
/// elimination: the same factions, none revived.
pub open spec fn none_revived(before: ExpeditionState, after: ExpeditionState) -> bool {
    &&& after.factions.contents().dom() == before.factions.contents().dom()
    &&& forall|k: Seq<char>|
        #![trigger after.factions.contents()[k]]
        before.factions.contents().contains_key(k) && before.factions.contents()[k].eliminated ==> after.factions.contents()[k].eliminated
}

/// Revival is never introduced by doing one thing after another.
pub proof fn lemma_none_revived_trans(a: ExpeditionState, b: ExpeditionState, c: ExpeditionState)
    requires
        none_revived(a, b),
        none_revived(b, c),
    ensures
        none_revived(a, c),
{
    assert forall|x: Seq<char>| #[trigger] a.factions.contents().contains_key(x) && a.factions.contents()[x].eliminated implies c.factions.contents()[x].eliminated by {
        assert(b.factions.contents()[x].eliminated);
    }
}

/// Every purpose's draw for one faction in one hour.
pub open spec fn hour_draws_of(rng_seed: u64, day: u32, hour: u8, faction_id: Seq<char>) -> HourDraws {
    HourDraws {
        economy: strategic_draw_spec(rng_seed, day, hour, faction_id, "strategic.economy"@),
        force: strategic_draw_spec(rng_seed, day, hour, faction_id, "strategic.force"@),
        diplomacy: strategic_draw_spec(rng_seed, day, hour, faction_id, "strategic.diplomacy"@),
    }
}

/// The board once a faction's three draws for the hour are folded into the
/// clock's digest.
pub open spec fn drawn_for(s: ExpeditionState, faction_id: Seq<char>) -> ExpeditionState {
    ExpeditionState {
        strategic_clock: StrategicClock {
            draw_digest: fold_faction(s.strategic_clock.draw_digest, s.rng_seed, s.campaign_day, s.strategic_clock.hour_of_day, faction_id),
            ..s.strategic_clock
        },
        ..s
    }
}

/// The board `goaled` is `drawn` with the faction's goals read off it: a
/// faction the save carries holds, and holds only, the goals its reading of
/// the board gives; nothing else changes.
pub open spec fn goals_set(drawn: ExpeditionState, goaled: ExpeditionState, faction_id: Seq<char>, geography: Geography) -> bool {
    &&& goaled == (ExpeditionState { factions: goaled.factions, ..drawn })
    &&& (!drawn.factions.contents().contains_key(faction_id) ==> goaled.factions == drawn.factions)
    &&& (drawn.factions.contents().contains_key(faction_id) ==> {
        let f = drawn.factions.contents()[faction_id];
        let g = goaled.factions.contents()[faction_id];
        &&& goaled.factions.contents() == drawn.factions.contents().insert(faction_id, g)
        &&& g == (FactionState { current_goals: g.current_goals, ..f })
        &&& exists|view: BoardView| view_of(view, drawn, faction_id, geography) && goals_chosen(drawn, view, g.current_goals@)
    })
}

impl ExpeditionState {
    /// The clock one strategic hour on: the hour moves, wrapping at the
    /// day's end into the next day, and one more hour has run.
    fn advance_clock(&mut self)
        ensures
            final(self).strategic_clock.hour_of_day == next_hour(old(self).strategic_clock.hour_of_day),
            final(self).campaign_day == next_day(old(self).campaign_day, old(self).strategic_clock.hour_of_day),
            final(self).strategic_clock.hours_run == if old(self).strategic_clock.hours_run < u64::MAX {
                (old(self).strategic_clock.hours_run + 1) as u64
            } else {
                u64::MAX
            },
            final(self).strategic_clock.draw_digest == old(self).strategic_clock.draw_digest,
            *final(self) == (ExpeditionState { strategic_clock: final(self).strategic_clock, campaign_day: final(self).campaign_day, ..*old(self) }),
    {
        let hour = self.strategic_clock.hour_of_day;
        self.strategic_clock.hours_run = self.strategic_clock.hours_run.saturating_add(1);
        if hour as u16 + 1 >= HOURS_PER_DAY as u16 {
            self.strategic_clock.hour_of_day = 0;
            self.campaign_day = self.campaign_day.saturating_add(1);
        } else {
            self.strategic_clock.hour_of_day = hour + 1;
        }
    }

    /// One faction's part of an hour: its three draws are made and folded
    /// into the clock's digest, its goals are read off the board, its
    /// buildings produce, and it acts on its goals.
    #[verifier::rlimit(40)]
    fn faction_hour(
        &mut self,
        faction_id: &str,
        geography: &Geography,
        buildings: &BuildingDefinitions,
        machines: &MachineDefinitions,
    ) -> (r: Vec<StrategicEvent>)
        ensures
            final(self).strategic_clock.draw_digest == fold_faction(
                old(self).strategic_clock.draw_digest,
                old(self).rng_seed,
                old(self).campaign_day,
                old(self).strategic_clock.hour_of_day,
                faction_id@,
            ),
            final(self).strategic_clock.hour_of_day == old(self).strategic_clock.hour_of_day,
            final(self).strategic_clock.hours_run == old(self).strategic_clock.hours_run,
            final(self).campaign_day == old(self).campaign_day,
            final(self).rng_seed == old(self).rng_seed,
            none_revived(*old(self), *final(self)),
            *final(self) == (ExpeditionState {
                factions: final(self).factions,
                buildings: final(self).buildings,
                machines: final(self).machines,
                forces: final(self).forces,
                strategic_clock: final(self).strategic_clock,
                ..*old(self)
            }),
            exists|goaled: ExpeditionState, produced: ExpeditionState, made: Seq<StrategicEvent>, acted: Seq<StrategicEvent>|
                {
                    &&& goals_set(drawn_for(*old(self), faction_id@), goaled, faction_id@, *geography)
                    &&& production_advanced(
                        goaled,
                        produced,
                        faction_id@,
                        *buildings,
                        *machines,
                        strategic_draw_spec(old(self).rng_seed, old(self).campaign_day, old(self).strategic_clock.hour_of_day, faction_id@, "strategic.economy"@),
                        made,
                    )
                    &&& goals_acted(
                        produced,
                        *final(self),
                        faction_id@,
                        *geography,
                        *buildings,
                        hour_draws_of(old(self).rng_seed, old(self).campaign_day, old(self).strategic_clock.hour_of_day, faction_id@),
                        acted,
                    )
                    &&& r@ == made + acted
                },
    {
        let draws = hour_draws(self.rng_seed, self.campaign_day, self.strategic_clock.hour_of_day, faction_id);
        self.strategic_clock.absorb_draw(draws.economy);
        self.strategic_clock.absorb_draw(draws.force);
        self.strategic_clock.absorb_draw(draws.diplomacy);
        let ghost drawn = *self;
        proof {
            assert(drawn == drawn_for(*old(self), faction_id@));
        }
        let view = BoardView::of(faction_id, self, geography);
        let goals = choose_goals(self, &view);
        let ghost chosen = goals@;
        match self.factions.find(faction_id) {
            Some(k) => {
                let ghost fs = self.factions@;
                proof {
                    lemma_as_map_value(fs, faction_id@, k as int);
                    lemma_as_map_dom(fs, faction_id@);
                }
                let faction = self.factions.value_at_mut(k);
                faction.current_goals = goals;
                proof {
                    assert(self.factions@[k as int].1.current_goals@ == chosen);
                    assert(self.factions@[k as int].1 == (FactionState { current_goals: self.factions@[k as int].1.current_goals, ..fs[k as int].1 }));
                    lemma_update_first(fs, k as int, faction_id@, self.factions@[k as int].1);
                    assert(self.factions.contents().dom() =~= drawn.factions.contents().dom());
                    assert(self.factions.contents()[faction_id@].current_goals@ == chosen);
                }
            },
            None => {
                proof {
                    lemma_as_map_dom(self.factions@, faction_id@);
                }
            },
        }
        proof {
            assert(none_revived(*old(self), *self));
        }
        let ghost goaled = *self;
        proof {
            if drawn.factions.contents().contains_key(faction_id@) {
                assert(goaled.factions.contents()[faction_id@].current_goals@ == chosen);
                assert(goals_chosen(drawn, view, goaled.factions.contents()[faction_id@].current_goals@));
            }
            assert(goals_set(drawn, goaled, faction_id@, *geography));
        }
        let mut events = advance_production(self, faction_id, buildings, machines, draws.economy);
        let ghost made = events@;
        proof {
            assert(none_revived(*old(self), *self)) by {
                assert forall|x: Seq<char>| #[trigger] goaled.factions.contents().contains_key(x) implies self.factions.contents()[x].eliminated
                    == goaled.factions.contents()[x].eliminated by {}
            }
        }
        let ghost produced = *self;
        let mut acted = act_on_goals(self, faction_id, geography, buildings, &draws);
        let ghost acted_events = acted@;
        proof {
            assert(none_revived(*old(self), *self)) by {
                assert forall|x: Seq<char>| #[trigger] produced.factions.contents().contains_key(x) implies self.factions.contents()[x].eliminated
                    == produced.factions.contents()[x].eliminated by {}
            }
        }
        events.append(&mut acted);
        proof {
            assert(draws == hour_draws_of(old(self).rng_seed, old(self).campaign_day, old(self).strategic_clock.hour_of_day, faction_id@));
            assert(events@ == made + acted_events);
        }
        events
    }

    /// The board's part of an hour: every marching force takes its hour,
    /// arrivals are resolved, and every faction is asked whether it has run
    /// out of ways back.
    fn board_hour(&mut self, geography: &Geography, buildings: &BuildingDefinitions) -> (r: Vec<StrategicEvent>)
        ensures
            none_revived(*old(self), *final(self)),
            *final(self) == (ExpeditionState {
                factions: final(self).factions,
                buildings: final(self).buildings,
                ownership: final(self).ownership,
                forces: final(self).forces,
                ..*old(self)
            }),
            exists|marched: ExpeditionState, resolved: ExpeditionState, moves: Seq<StrategicEvent>, arrivals: Seq<StrategicEvent>, sweeps: Seq<
                StrategicEvent,
            >|
                {
                    &&& forces_advanced(*old(self), marched, *geography, moves)
                    &&& arrivals_resolved(marched, resolved, *geography, moves, arrivals)
                    &&& exhaustion_swept(resolved, *final(self), *geography, *buildings, sweeps)
                    &&& r@ == moves + arrivals + sweeps
                },
    {
        let marching = self.advance_forces(geography);
        let ghost marched = *self;
        let mut arrived = self.resolve_arrivals(geography, &marching);
        let ghost moved = *self;
        let ghost arrivals = arrived@;
        let mut swept = self.eliminate_exhausted_factions(geography, buildings);
        let ghost sweeps = swept@;
        proof {
            assert(none_revived(*old(self), *self)) by {
                assert forall|x: Seq<char>| #[trigger] old(self).factions.contents().contains_key(x) && old(self).factions.contents()[x].eliminated
                    implies self.factions.contents()[x].eliminated by {
                    assert(moved.factions.contents()[x].eliminated);
                }
            }
        }
        let ghost moves = marching@;
        let mut events = marching;
        events.append(&mut arrived);
        events.append(&mut swept);
        proof {
            assert(forces_advanced(*old(self), marched, *geography, moves));
            assert(arrivals_resolved(marched, moved, *geography, moves, arrivals));
            assert(exhaustion_swept(moved, *self, *geography, *buildings, sweeps));
            assert(events@ == moves + arrivals + sweeps);
        }
        events
    }

    /// Journal every event reported, in order, under this hour.
    fn journal_all(&mut self, day: u32, hour: u8, events: &Vec<StrategicEvent>)
        ensures
            *final(self) == (ExpeditionState { strategic_journal: final(self).strategic_journal, ..*old(self) }),
            exists|s: Seq<JournalEntry>|
                stamped(s, events@, day, hour) && forall|h: Seq<JournalEntry>|
                    #![trigger records(old(self).strategic_journal, h)]
                    records(old(self).strategic_journal, h) ==> records(final(self).strategic_journal, h + s),
    {
        let ghost mut pushed: Seq<JournalEntry> = Seq::empty();
        let mut e: usize = 0;
        proof {
            assert forall|h: Seq<JournalEntry>|
                #![trigger records(old(self).strategic_journal, h)]
                records(old(self).strategic_journal, h) implies records(self.strategic_journal, h + pushed) by {
                assert(h + pushed =~= h);
            }
        }
        while e < events.len()
            invariant
                e <= events@.len(),
                *self == (ExpeditionState { strategic_journal: self.strategic_journal, ..*old(self) }),
                stamped(pushed, events@.take(e as int), day, hour),
                forall|h: Seq<JournalEntry>|
                    #![trigger records(old(self).strategic_journal, h)]
                    records(old(self).strategic_journal, h) ==> records(self.strategic_journal, h + pushed),
            decreases events@.len() - e,
        {
            let entry = JournalEntry::new(day, hour, events[e].duplicate());
            let ghost ge = entry;
            let ghost j0 = self.strategic_journal;
            self.strategic_journal.push(entry);
            proof {
                assert forall|h: Seq<JournalEntry>|
                    #![trigger records(old(self).strategic_journal, h)]
                    records(old(self).strategic_journal, h) implies records(self.strategic_journal, h + pushed.push(ge)) by {
                    lemma_push_keeps_the_record(h + pushed, ge, j0.window(), j0.digest(), j0.evicted());
                    assert((h + pushed).push(ge) =~= h + pushed.push(ge));
                }
                let next = pushed.push(ge);
                assert forall|i: int| 0 <= i < next.len() implies (#[trigger] next[i]).day == day && next[i].hour == hour && event_text(
                    next[i].event,
                ) == event_text(events@.take(e + 1)[i]) by {
                    if i < pushed.len() {
                        assert(events@.take(e + 1)[i] == events@.take(e as int)[i]);
                    }
                }
                pushed = next;
            }
            e = e + 1;
        }
        proof {
            assert(events@.take(e as int) =~= events@);
        }
    }

    /// One strategic hour. For every faction the save carries, in order: its
    /// three draws are made and folded into the clock's digest, its goals are
    /// read off the board, its buildings produce, and it acts on its goals.
    /// Then every marching force takes its hour, arrivals are resolved, and
    /// every faction is asked whether it has run out of ways back. The hour is
    /// reported last, everything reported is journalled under this hour, and
    /// the clock moves on one hour. The faction registry is carried for the
    /// doctrines that will read it; nothing in the hour reads it yet.
    #[verifier::rlimit(60)]
    pub fn strategic_tick(
        &mut self,
        geography: &Geography,
        _factions: &FactionDefinitions,
        buildings: &BuildingDefinitions,
        machines: &MachineDefinitions,
    ) -> (r: Vec<StrategicEvent>)
        ensures
            final(self).strategic_clock.hour_of_day == next_hour(old(self).strategic_clock.hour_of_day),
            final(self).campaign_day == next_day(old(self).campaign_day, old(self).strategic_clock.hour_of_day),
            final(self).strategic_clock.hours_run == if old(self).strategic_clock.hours_run < u64::MAX {
                (old(self).strategic_clock.hours_run + 1) as u64
            } else {
                u64::MAX
            },
            final(self).strategic_clock.draw_digest == fold_hour(
                old(self).strategic_clock.draw_digest,
                old(self).rng_seed,
                old(self).campaign_day,
                old(self).strategic_clock.hour_of_day,
                keys_of(old(self).factions@),
                old(self).factions@.len() as int,
            ),
            none_revived(*old(self), *final(self)),
            *final(self) == (ExpeditionState {
                factions: final(self).factions,
                buildings: final(self).buildings,
                machines: final(self).machines,
                forces: final(self).forces,
                ownership: final(self).ownership,
                strategic_journal: final(self).strategic_journal,
                strategic_clock: final(self).strategic_clock,
                campaign_day: final(self).campaign_day,
                ..*old(self)
            }),
            r@.len() > 0,
            r@.last() == (StrategicEvent::HourPassed { day: old(self).campaign_day, hour: old(self).strategic_clock.hour_of_day }),
            exists|s: Seq<JournalEntry>|
                stamped(s, r@, old(self).campaign_day, old(self).strategic_clock.hour_of_day) && forall|h: Seq<JournalEntry>|
                    #![trigger records(old(self).strategic_journal, h)]
                    records(old(self).strategic_journal, h) ==> records(final(self).strategic_journal, h + s),
    {
        let day = self.campaign_day;
        let hour = self.strategic_clock.hour_of_day;
        let seed = self.rng_seed;
        let ids = self.factions.keys();
        let ghost start = *self;
        let ghost keys = keys_of(start.factions@);
        let mut events: Vec<StrategicEvent> = Vec::new();
        let mut i: usize = 0;
        proof {
            assert(ids@.len() == keys.len());
        }
        while i < ids.len()
            invariant
                i <= ids@.len(),
                ids@.len() == keys.len(),
                forall|m: int| 0 <= m < ids@.len() ==> #[trigger] ids@[m]@ == keys[m],
                keys == keys_of(start.factions@),
                day == self.campaign_day,
                hour == self.strategic_clock.hour_of_day,
                seed == self.rng_seed,
                day == start.campaign_day,
                hour == start.strategic_clock.hour_of_day,
                seed == start.rng_seed,
                self.strategic_clock.hours_run == start.strategic_clock.hours_run,
                self.strategic_clock.draw_digest == fold_hour(start.strategic_clock.draw_digest, seed, day, hour, keys, i as int),
                none_revived(start, *self),
                *self == (ExpeditionState {
                    factions: self.factions,
                    buildings: self.buildings,
                    machines: self.machines,
                    forces: self.forces,
                    strategic_clock: self.strategic_clock,
                    ..start
                }),
            decreases ids@.len() - i,
        {
            let ghost before = *self;
            let mut more = self.faction_hour(ids[i].as_str(), geography, buildings, machines);
            proof {
                assert(none_revived(start, *self)) by {
                    assert forall|x: Seq<char>| #[trigger] start.factions.contents().contains_key(x) && start.factions.contents()[x].eliminated
                        implies self.factions.contents()[x].eliminated by {
                        assert(before.factions.contents()[x].eliminated);
                    }
                }
            }
            events.append(&mut more);
            i = i + 1;
        }
        let ghost factions_done = *self;
        proof {
            assert(i == keys.len());
        }
        let mut board = self.board_hour(geography, buildings);
        events.append(&mut board);
        events.push(StrategicEvent::HourPassed { day, hour });
        let ghost boarded = *self;
        self.journal_all(day, hour, &events);
        let ghost journalled = *self;
        self.advance_clock();
        proof {
            lemma_none_revived_trans(start, factions_done, boarded);
            assert(journalled.factions == boarded.factions);
            assert(self.factions == boarded.factions);
            assert(none_revived(boarded, *self)) by {
                assert(self.factions.contents() == boarded.factions.contents());
            }
            lemma_none_revived_trans(start, boarded, *self);
            assert(keys.len() == start.factions@.len());
            assert(boarded.strategic_journal == start.strategic_journal);
            assert(self.strategic_journal == journalled.strategic_journal);
        }
        events
    }
}

} // verus!
