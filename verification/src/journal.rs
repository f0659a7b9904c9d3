//! The strategic event journal: what the island did, kept in the save.
//!
//! The journal is bounded but lossless: [`JOURNAL_WINDOW`] entries are kept
//! whole, everything older is folded, in the order it happened, into one
//! `u64` digest, and a count records how many entries were ever folded. Window
//! plus digest plus count is the complete record: nothing that happened can
//! leave the save without changing one of the three.

use vstd::prelude::*;

use crate::action::ActionSkipReason;
use crate::elimination::RecoveryLink;
use crate::force::{ForceId, HaltReason};
use crate::keyed::StrMap;
use crate::production::{MachineFamily, ProductionSkipReason};
use crate::text::{decimal, push_decimal, push_str};
use crate::tick::StrategicEvent;
use crate::utility::Goal;
use crate::world::{fnv_chars, fnv_str};

verus! {

/// How many entries the journal keeps whole. Provisional.
pub const JOURNAL_WINDOW: usize = 256;

/// One thing the island did, and when.
#[derive(Clone, Debug, PartialEq)]
pub struct JournalEntry {
    pub day: u32,
    pub hour: u8,
    pub event: StrategicEvent,
}

impl JournalEntry {
    /// An entry for `event`, stamped with the day and hour it happened on.
    pub fn new(day: u32, hour: u8, event: StrategicEvent) -> (r: Self)
        ensures
            r == (JournalEntry { day, hour, event }),
    {
        JournalEntry { day, hour, event }
    }
}

// ---------------------------------------------------------------------------
// The canonical text of an entry: what the digest folds.
// ---------------------------------------------------------------------------

/// A field: a separator, then the text.
pub open spec fn field(s: Seq<char>) -> Seq<char> {
    "|"@ + s
}

/// A numeric field, in decimal.
pub open spec fn num(n: nat) -> Seq<char> {
    "|"@ + decimal(n)
}

/// An optional text field; `~` for absent.
pub open spec fn opt_field(s: Option<Seq<char>>) -> Seq<char> {
    match s {
        Some(t) => "|"@ + t,
        None => "|~"@,
    }
}

/// A list of texts, one field each, closed by `;`.
pub open spec fn list_text(s: Seq<Seq<char>>) -> Seq<char>
    decreases s.len(),
{
    if s.len() == 0 {
        ";"@
    } else {
        "|"@ + s[0] + list_text(s.drop_first())
    }
}

/// A key-count list, closed by `;`.
pub open spec fn counts_text(s: Seq<(Seq<char>, u32)>) -> Seq<char>
    decreases s.len(),
{
    if s.len() == 0 {
        ";"@
    } else {
        "|"@ + s[0].0 + "|"@ + decimal(s[0].1 as nat) + counts_text(s.drop_first())
    }
}

pub open spec fn halt_word(r: HaltReason) -> Seq<char> {
    match r {
        HaltReason::OutOfSupply => "out_of_supply"@,
        HaltReason::RouteMissing => "route_missing"@,
    }
}

pub open spec fn link_word(l: RecoveryLink) -> Seq<char> {
    match l {
        RecoveryLink::OperationalCoreBuilding => "operational_core_building"@,
        RecoveryLink::RemainingPopulation => "remaining_population"@,
        RecoveryLink::WorkerProductionOrRecruitment => "worker_production_or_recruitment"@,
        RecoveryLink::ResourceReserve => "resource_reserve"@,
        RecoveryLink::ControlledSettlement => "controlled_settlement"@,
        RecoveryLink::MobileRecoveryForce => "mobile_recovery_force"@,
        RecoveryLink::AlliedRefuge => "allied_refuge"@,
        RecoveryLink::ValidConstructionSite => "valid_construction_site"@,
        RecoveryLink::AuthoredRecoveryEvent => "authored_recovery_event"@,
        RecoveryLink::NeedsDecision => "needs_decision"@,
    }
}

pub open spec fn goal_word(g: Goal) -> Seq<char> {
    match g {
        Goal::Expand => "expand"@,
        Goal::Pressure => "pressure"@,
        Goal::Recover => "recover"@,
        Goal::Consolidate => "consolidate"@,
        Goal::Develop => "develop"@,
        Goal::Withdraw => "withdraw"@,
    }
}

pub open spec fn action_skip_text(r: ActionSkipReason) -> Seq<char> {
    match r {
        ActionSkipReason::NoActionAuthoredYet => "no_action_authored_yet"@,
        ActionSkipReason::NoHeldCell => "no_held_cell"@,
        ActionSkipReason::NoCompatibleBuilding => "no_compatible_building"@,
        ActionSkipReason::NoRoomToBuild => "no_room_to_build"@,
        ActionSkipReason::InsufficientResource { key, held, needed } => "insufficient_resource"@ + field(key@)
            + num(held as nat) + num(needed as nat),
        ActionSkipReason::NoReachableTarget => "no_reachable_target"@,
        ActionSkipReason::NoIdleForce => "no_idle_force"@,
        ActionSkipReason::OrderRefused => "order_refused"@,
        ActionSkipReason::PlacementRefused => "placement_refused"@,
    }
}

pub open spec fn production_skip_text(r: ProductionSkipReason) -> Seq<char> {
    match r {
        ProductionSkipReason::InsufficientResource { key, held, needed } => "insufficient_resource"@ + field(key@)
            + num(held as nat) + num(needed as nat),
        ProductionSkipReason::UnknownMachineRecord { def_id } => "unknown_machine_record"@ + field(def_id@),
        ProductionSkipReason::Refused { detail } => "refused"@ + field(detail@),
    }
}

/// The canonical text of one event: a tag, then every field in order.
pub open spec fn event_text(e: StrategicEvent) -> Seq<char> {
    match e {
        StrategicEvent::HourPassed { day, hour } => "hour_passed"@ + num(day as nat) + num(hour as nat),
        StrategicEvent::ForceDeparted { force_id, faction_id, from_cell_id, destination_cell_id, steps } =>
            "force_departed"@ + field(force_id@) + field(faction_id@) + field(from_cell_id@) + field(
            destination_cell_id@) + num(steps as nat),
        StrategicEvent::ForceMoved { force_id, faction_id, route_id, from_cell_id, to_cell_id } => "force_moved"@
            + field(force_id@) + field(faction_id@) + field(route_id@) + field(from_cell_id@) + field(to_cell_id@),
        StrategicEvent::ForceArrived { force_id, faction_id, cell_id, composition, strength, readiness, supply } =>
            "force_arrived"@ + field(force_id@) + field(faction_id@) + field(cell_id@) + counts_text(composition@)
            + num(strength as nat) + num(readiness as nat) + num(supply as nat),
        StrategicEvent::ForceHalted { force_id, faction_id, cell_id, reason } => "force_halted"@ + field(force_id@)
            + field(faction_id@) + field(cell_id@) + field(halt_word(reason)),
        StrategicEvent::ArrivalContested { force_id, faction_id, cell_id, held_by, defender_force_ids, day } =>
            "arrival_contested"@ + field(force_id@) + field(faction_id@) + field(cell_id@) + field(held_by@)
            + list_text(defender_force_ids@.map_values(|f: ForceId| f@)) + num(day as nat),
        StrategicEvent::ControlTaken { force_id, faction_id, cell_id, from, building_instance_ids, day } =>
            "control_taken"@ + field(force_id@) + field(faction_id@) + field(cell_id@) + opt_field(
            match from {
                Some(f) => Some(f@),
                None => None,
            },
        ) + list_text(building_instance_ids@.map_values(|b: String| b@)) + num(day as nat),
        StrategicEvent::RecoveryLinkLost { faction_id, link } => "recovery_link_lost"@ + field(faction_id@) + field(
            link_word(link),
        ),
        StrategicEvent::FactionEliminated { faction_id, day } => "faction_eliminated"@ + field(faction_id@) + num(
            day as nat,
        ),
        StrategicEvent::MachineProduced { faction_id, family, building_instance_id, day } => "machine_produced"@
            + field(faction_id@) + field(family.key()) + field(building_instance_id@) + num(day as nat),
        StrategicEvent::ProductionYielded { faction_id, building_instance_id, rule_id, output_key, amount, day } =>
            "production_yielded"@ + field(faction_id@) + field(building_instance_id@) + field(rule_id@) + field(
            output_key@) + num(amount as nat) + num(day as nat),
        StrategicEvent::ProductionSkipped { faction_id, building_instance_id, rule_id, reason, day } =>
            "production_skipped"@ + field(faction_id@) + field(building_instance_id@) + field(rule_id@) + field(
            production_skip_text(reason)) + num(day as nat),
        StrategicEvent::ActionSkipped { faction_id, goal, reason, day } => "action_skipped"@ + field(faction_id@)
            + field(goal_word(goal)) + field(action_skip_text(reason)) + num(day as nat),
        StrategicEvent::BuildingStarted { faction_id, building_instance_id, def_id, cell_id, day } =>
            "building_started"@ + field(faction_id@) + field(building_instance_id@) + field(def_id@) + field(
            cell_id@) + num(day as nat),
        StrategicEvent::Gathered { faction_id, resource_key, amount, day } => "gathered"@ + field(faction_id@)
            + field(resource_key@) + num(amount as nat) + num(day as nat),
    }
}

/// The canonical text of one entry: its stamp, then its event.
pub open spec fn entry_text(e: JournalEntry) -> Seq<char> {
    num(e.day as nat) + num(e.hour as nat) + field(event_text(e.event))
}

/// `x` rotated left by seven bits.
pub open spec fn rotl7(x: u64) -> u64 {
    (x << 7u64) | (x >> 57u64)
}

/// The digest after one more entry is folded in: FNV-1a over the entry's
/// text, then a rotate to close the entry.
pub open spec fn fold_entry(digest: u64, e: JournalEntry) -> u64 {
    rotl7(fnv_chars(digest, entry_text(e)))
}

/// The digest after a run of entries is folded in, in order.
pub open spec fn fold_entries(digest: u64, s: Seq<JournalEntry>) -> u64
    decreases s.len(),
{
    if s.len() == 0 {
        digest
    } else {
        fold_entry(fold_entries(digest, s.drop_last()), s.last())
    }
}

/// Folding two runs in turn is folding the one run they make together.
pub proof fn lemma_fold_entries_append(digest: u64, a: Seq<JournalEntry>, b: Seq<JournalEntry>)
    ensures
        fold_entries(digest, a + b) == fold_entries(fold_entries(digest, a), b),
    decreases b.len(),
{
    if b.len() == 0 {
        assert(a + b =~= a);
    } else {
        lemma_fold_entries_append(digest, a, b.drop_last());
        assert((a + b).drop_last() =~= a + b.drop_last());
        assert((a + b).last() == b.last());
    }
}

/// How many entries of a history have left the window.
pub open spec fn evicted_len(h: Seq<JournalEntry>) -> int {
    if h.len() > JOURNAL_WINDOW {
        h.len() - JOURNAL_WINDOW
    } else {
        0
    }
}

/// The entries of a history the window keeps whole: the newest, oldest first.
pub open spec fn kept(h: Seq<JournalEntry>) -> Seq<JournalEntry> {
    h.skip(evicted_len(h))
}

/// The digest a history leaves: every entry older than the window, folded
/// from zero in the order it happened.
pub open spec fn folded(h: Seq<JournalEntry>) -> u64 {
    fold_entries(0, h.take(evicted_len(h)))
}

/// The count a history leaves: how many entries left the window, saturating.
pub open spec fn evicted_total(h: Seq<JournalEntry>) -> int {
    if evicted_len(h) > u64::MAX as int {
        u64::MAX as int
    } else {
        evicted_len(h)
    }
}

/// The journal is bounded but lossless: a journal that holds the record of
/// a history — its newest entries whole, the fold of everything older, and
/// the count of what was folded — holds, after `push` of one more entry
/// (the window, digest and count that `push` states), exactly the record of
/// the longer history. From `new`, which holds the record of no history, every
/// journal holds the record of what was pushed into it.
pub proof fn lemma_push_keeps_the_record(
    h: Seq<JournalEntry>,
    e: JournalEntry,
    window: Seq<JournalEntry>,
    digest: u64,
    evicted: u64,
)
    requires
        window == kept(h),
        digest == folded(h),
        evicted == evicted_total(h),
    ensures
        ({
            let all = window.push(e);
            let k = if all.len() > JOURNAL_WINDOW { all.len() - JOURNAL_WINDOW } else { 0 };
            &&& all.skip(k) == kept(h.push(e))
            &&& fold_entries(digest, all.take(k)) == folded(h.push(e))
            &&& (if evicted as int + k > u64::MAX as int { u64::MAX as int } else { evicted as int + k }) == evicted_total(h.push(e))
        }),
{
    let all = window.push(e);
    let k = if all.len() > JOURNAL_WINDOW { all.len() - JOURNAL_WINDOW } else { 0 };
    let m = evicted_len(h);
    let hp = h.push(e);
    let m2 = evicted_len(hp);
    assert(m2 == m + k);
    assert(all.skip(k) =~= hp.skip(m2));
    assert(hp.take(m2) =~= h.take(m) + all.take(k));
    lemma_fold_entries_append(0, h.take(m), all.take(k));
}

/// An empty journal holds the record of the empty history.
pub proof fn lemma_new_holds_no_history()
    ensures
        kept(Seq::<JournalEntry>::empty()) == Seq::<JournalEntry>::empty(),
        folded(Seq::<JournalEntry>::empty()) == 0,
        evicted_total(Seq::<JournalEntry>::empty()) == 0,
{
    assert(Seq::<JournalEntry>::empty().skip(0) =~= Seq::<JournalEntry>::empty());
    assert(Seq::<JournalEntry>::empty().take(0) =~= Seq::<JournalEntry>::empty());
}

pub(crate) fn put(out: &mut String, s: &str)
    ensures
        final(out)@ == old(out)@ + s@,
{
    push_str(out, s);
}

pub(crate) fn put_field(out: &mut String, s: &str)
    ensures
        final(out)@ == old(out)@ + field(s@),
{
    push_str(out, "|");
    push_str(out, s);
    assert(out@ =~= old(out)@ + field(s@));
}

pub(crate) fn put_num(out: &mut String, n: u64)
    ensures
        final(out)@ == old(out)@ + num(n as nat),
{
    push_str(out, "|");
    push_decimal(out, n);
    assert(out@ =~= old(out)@ + num(n as nat));
}

pub(crate) fn put_list(out: &mut String, items: &Vec<String>)
    ensures
        final(out)@ == old(out)@ + list_text(items@.map_values(|b: String| b@)),
{
    let ghost all = items@.map_values(|b: String| b@);
    let mut i: usize = 0;
    proof {
        assert(all.skip(0) =~= all);
    }
    while i < items.len()
        invariant
            i <= items@.len(),
            all == items@.map_values(|b: String| b@),
            out@ + list_text(all.skip(i as int)) == old(out)@ + list_text(all),
        decreases items@.len() - i,
    {
        proof {
            assert(all.skip(i as int).drop_first() =~= all.skip(i + 1));
            assert(all.skip(i as int)[0] == items@[i as int]@);
        }
        let ghost before = out@;
        put_field(out, items[i].as_str());
        proof {
            assert(before + list_text(all.skip(i as int)) =~= out@ + list_text(all.skip(i + 1)));
        }
        i = i + 1;
    }
    proof {
        assert(all.skip(items@.len() as int) =~= Seq::<Seq<char>>::empty());
    }
    push_str(out, ";");
}

fn put_ids(out: &mut String, items: &Vec<ForceId>)
    ensures
        final(out)@ == old(out)@ + list_text(items@.map_values(|f: ForceId| f@)),
{
    let ghost all = items@.map_values(|f: ForceId| f@);
    let mut i: usize = 0;
    proof {
        assert(all.skip(0) =~= all);
    }
    while i < items.len()
        invariant
            i <= items@.len(),
            all == items@.map_values(|f: ForceId| f@),
            out@ + list_text(all.skip(i as int)) == old(out)@ + list_text(all),
        decreases items@.len() - i,
    {
        proof {
            assert(all.skip(i as int).drop_first() =~= all.skip(i + 1));
            assert(all.skip(i as int)[0] == items@[i as int]@);
        }
        let ghost before = out@;
        put_field(out, items[i].as_str());
        proof {
            assert(before + list_text(all.skip(i as int)) =~= out@ + list_text(all.skip(i + 1)));
        }
        i = i + 1;
    }
    proof {
        assert(all.skip(items@.len() as int) =~= Seq::<Seq<char>>::empty());
    }
    push_str(out, ";");
}

fn put_counts(out: &mut String, counts: &StrMap<u32>)
    ensures
        final(out)@ == old(out)@ + counts_text(counts@),
{
    let ghost all = counts@;
    let mut i: usize = 0;
    proof {
        assert(all.skip(0) =~= all);
    }
    while i < counts.len()
        invariant
            i <= all.len(),
            all == counts@,
            out@ + counts_text(all.skip(i as int)) == old(out)@ + counts_text(all),
        decreases all.len() - i,
    {
        proof {
            assert(all.skip(i as int).drop_first() =~= all.skip(i + 1));
            assert(all.skip(i as int)[0] == all[i as int]);
        }
        let ghost before = out@;
        put_field(out, counts.key_at(i).as_str());
        put_num(out, *counts.value_at(i) as u64);
        proof {
            assert(before + counts_text(all.skip(i as int)) =~= out@ + counts_text(all.skip(i + 1)));
        }
        i = i + 1;
    }
    proof {
        assert(all.skip(all.len() as int) =~= Seq::<(Seq<char>, u32)>::empty());
    }
    push_str(out, ";");
}

fn halt_str(r: HaltReason) -> (s: &'static str)
    ensures
        s@ == halt_word(r),
{
    match r {
        HaltReason::OutOfSupply => "out_of_supply",
        HaltReason::RouteMissing => "route_missing",
    }
}

fn link_str(l: RecoveryLink) -> (s: &'static str)
    ensures
        s@ == link_word(l),
{
    match l {
        RecoveryLink::OperationalCoreBuilding => "operational_core_building",
        RecoveryLink::RemainingPopulation => "remaining_population",
        RecoveryLink::WorkerProductionOrRecruitment => "worker_production_or_recruitment",
        RecoveryLink::ResourceReserve => "resource_reserve",
        RecoveryLink::ControlledSettlement => "controlled_settlement",
        RecoveryLink::MobileRecoveryForce => "mobile_recovery_force",
        RecoveryLink::AlliedRefuge => "allied_refuge",
        RecoveryLink::ValidConstructionSite => "valid_construction_site",
        RecoveryLink::AuthoredRecoveryEvent => "authored_recovery_event",
        RecoveryLink::NeedsDecision => "needs_decision",
    }
}

fn goal_str(g: Goal) -> (s: &'static str)
    ensures
        s@ == goal_word(g),
{
    match g {
        Goal::Expand => "expand",
        Goal::Pressure => "pressure",
        Goal::Recover => "recover",
        Goal::Consolidate => "consolidate",
        Goal::Develop => "develop",
        Goal::Withdraw => "withdraw",
    }
}

fn put_action_skip(out: &mut String, r: &ActionSkipReason)
    ensures
        final(out)@ == old(out)@ + field(action_skip_text(*r)),
{
    push_str(out, "|");
    match r {
        ActionSkipReason::NoActionAuthoredYet => put(out, "no_action_authored_yet"),
        ActionSkipReason::NoHeldCell => put(out, "no_held_cell"),
        ActionSkipReason::NoCompatibleBuilding => put(out, "no_compatible_building"),
        ActionSkipReason::NoRoomToBuild => put(out, "no_room_to_build"),
        ActionSkipReason::InsufficientResource { key, held, needed } => {
            put(out, "insufficient_resource");
            put_field(out, key.as_str());
            put_num(out, *held as u64);
            put_num(out, *needed as u64);
        },
        ActionSkipReason::NoReachableTarget => put(out, "no_reachable_target"),
        ActionSkipReason::NoIdleForce => put(out, "no_idle_force"),
        ActionSkipReason::OrderRefused => put(out, "order_refused"),
        ActionSkipReason::PlacementRefused => put(out, "placement_refused"),
    }
    assert(out@ =~= old(out)@ + field(action_skip_text(*r)));
}

fn put_production_skip(out: &mut String, r: &ProductionSkipReason)
    ensures
        final(out)@ == old(out)@ + field(production_skip_text(*r)),
{
    push_str(out, "|");
    match r {
        ProductionSkipReason::InsufficientResource { key, held, needed } => {
            put(out, "insufficient_resource");
            put_field(out, key.as_str());
            put_num(out, *held as u64);
            put_num(out, *needed as u64);
        },
        ProductionSkipReason::UnknownMachineRecord { def_id } => {
            put(out, "unknown_machine_record");
            put_field(out, def_id.as_str());
        },
        ProductionSkipReason::Refused { detail } => {
            put(out, "refused");
            put_field(out, detail.as_str());
        },
    }
    assert(out@ =~= old(out)@ + field(production_skip_text(*r)));
}

/// Append the canonical text of one event.
#[verifier::spinoff_prover]
#[verifier::rlimit(60)]
pub fn render_event(out: &mut String, e: &StrategicEvent)
    ensures
        final(out)@ == old(out)@ + event_text(*e),
{
    match e {
        StrategicEvent::HourPassed { day, hour } => {
            put(out, "hour_passed");
            put_num(out, *day as u64);
            put_num(out, *hour as u64);
        },
        StrategicEvent::ForceDeparted { force_id, faction_id, from_cell_id, destination_cell_id, steps } => {
            put(out, "force_departed");
            put_field(out, force_id.as_str());
            put_field(out, faction_id.as_str());
            put_field(out, from_cell_id.as_str());
            put_field(out, destination_cell_id.as_str());
            put_num(out, *steps as u64);
        },
        StrategicEvent::ForceMoved { force_id, faction_id, route_id, from_cell_id, to_cell_id } => {
            put(out, "force_moved");
            put_field(out, force_id.as_str());
            put_field(out, faction_id.as_str());
            put_field(out, route_id.as_str());
            put_field(out, from_cell_id.as_str());
            put_field(out, to_cell_id.as_str());
        },
        StrategicEvent::ForceArrived { force_id, faction_id, cell_id, composition, strength, readiness, supply } => {
            put(out, "force_arrived");
            put_field(out, force_id.as_str());
            put_field(out, faction_id.as_str());
            put_field(out, cell_id.as_str());
            put_counts(out, composition);
            put_num(out, *strength as u64);
            put_num(out, *readiness as u64);
            put_num(out, *supply as u64);
        },
        StrategicEvent::ForceHalted { force_id, faction_id, cell_id, reason } => {
            put(out, "force_halted");
            put_field(out, force_id.as_str());
            put_field(out, faction_id.as_str());
            put_field(out, cell_id.as_str());
            put_field(out, halt_str(*reason));
        },
        StrategicEvent::ArrivalContested { force_id, faction_id, cell_id, held_by, defender_force_ids, day } => {
            put(out, "arrival_contested");
            put_field(out, force_id.as_str());
            put_field(out, faction_id.as_str());
            put_field(out, cell_id.as_str());
            put_field(out, held_by.as_str());
            put_ids(out, defender_force_ids);
            put_num(out, *day as u64);
        },
        StrategicEvent::ControlTaken { force_id, faction_id, cell_id, from, building_instance_ids, day } => {
            put(out, "control_taken");
            put_field(out, force_id.as_str());
            put_field(out, faction_id.as_str());
            put_field(out, cell_id.as_str());
            match from {
                Some(f) => put_field(out, f.as_str()),
                None => put(out, "|~"),
            }
            put_list(out, building_instance_ids);
            put_num(out, *day as u64);
        },
        StrategicEvent::RecoveryLinkLost { faction_id, link } => {
            put(out, "recovery_link_lost");
            put_field(out, faction_id.as_str());
            put_field(out, link_str(*link));
        },
        StrategicEvent::FactionEliminated { faction_id, day } => {
            put(out, "faction_eliminated");
            put_field(out, faction_id.as_str());
            put_num(out, *day as u64);
        },
        StrategicEvent::MachineProduced { faction_id, family, building_instance_id, day } => {
            put(out, "machine_produced");
            put_field(out, faction_id.as_str());
            put_field(out, family.as_key());
            put_field(out, building_instance_id.as_str());
            put_num(out, *day as u64);
        },
        StrategicEvent::ProductionYielded { faction_id, building_instance_id, rule_id, output_key, amount, day } => {
            put(out, "production_yielded");
            put_field(out, faction_id.as_str());
            put_field(out, building_instance_id.as_str());
            put_field(out, rule_id.as_str());
            put_field(out, output_key.as_str());
            put_num(out, *amount as u64);
            put_num(out, *day as u64);
        },
        StrategicEvent::ProductionSkipped { faction_id, building_instance_id, rule_id, reason, day } => {
            put(out, "production_skipped");
            put_field(out, faction_id.as_str());
            put_field(out, building_instance_id.as_str());
            put_field(out, rule_id.as_str());
            put_production_skip(out, reason);
            put_num(out, *day as u64);
        },
        StrategicEvent::ActionSkipped { faction_id, goal, reason, day } => {
            put(out, "action_skipped");
            put_field(out, faction_id.as_str());
            put_field(out, goal_str(*goal));
            put_action_skip(out, reason);
            put_num(out, *day as u64);
        },
        StrategicEvent::BuildingStarted { faction_id, building_instance_id, def_id, cell_id, day } => {
            put(out, "building_started");
            put_field(out, faction_id.as_str());
            put_field(out, building_instance_id.as_str());
            put_field(out, def_id.as_str());
            put_field(out, cell_id.as_str());
            put_num(out, *day as u64);
        },
        StrategicEvent::Gathered { faction_id, resource_key, amount, day } => {
            put(out, "gathered");
            put_field(out, faction_id.as_str());
            put_field(out, resource_key.as_str());
            put_num(out, *amount as u64);
            put_num(out, *day as u64);
        },
    }
    assert(out@ =~= old(out)@ + event_text(*e));
}

/// The canonical text of one entry.
pub fn entry_string(e: &JournalEntry) -> (r: String)
    ensures
        r@ == entry_text(*e),
{
    let mut out = String::new();
    put_num(&mut out, e.day as u64);
    put_num(&mut out, e.hour as u64);
    push_str(&mut out, "|");
    render_event(&mut out, &e.event);
    assert(out@ =~= entry_text(*e));
    out
}

/// A copy of a shortfall or refusal that reads the same.
fn copy_action_skip(r: &ActionSkipReason) -> (c: ActionSkipReason)
    ensures
        action_skip_text(c) == action_skip_text(*r),
{
    match r {
        ActionSkipReason::NoActionAuthoredYet => ActionSkipReason::NoActionAuthoredYet,
        ActionSkipReason::NoHeldCell => ActionSkipReason::NoHeldCell,
        ActionSkipReason::NoCompatibleBuilding => ActionSkipReason::NoCompatibleBuilding,
        ActionSkipReason::NoRoomToBuild => ActionSkipReason::NoRoomToBuild,
        ActionSkipReason::InsufficientResource { key, held, needed } => ActionSkipReason::InsufficientResource {
            key: key.clone(),
            held: *held,
            needed: *needed,
        },
        ActionSkipReason::NoReachableTarget => ActionSkipReason::NoReachableTarget,
        ActionSkipReason::NoIdleForce => ActionSkipReason::NoIdleForce,
        ActionSkipReason::OrderRefused => ActionSkipReason::OrderRefused,
        ActionSkipReason::PlacementRefused => ActionSkipReason::PlacementRefused,
    }
}

/// A copy of a production skip that reads the same.
fn copy_production_skip(r: &ProductionSkipReason) -> (c: ProductionSkipReason)
    ensures
        production_skip_text(c) == production_skip_text(*r),
{
    match r {
        ProductionSkipReason::InsufficientResource { key, held, needed } => ProductionSkipReason::InsufficientResource {
            key: key.clone(),
            held: *held,
            needed: *needed,
        },
        ProductionSkipReason::UnknownMachineRecord { def_id } => ProductionSkipReason::UnknownMachineRecord { def_id: def_id.clone() },
        ProductionSkipReason::Refused { detail } => ProductionSkipReason::Refused { detail: detail.clone() },
    }
}

/// A copy of a list of force IDs, ID for ID.
fn copy_force_ids(v: &Vec<ForceId>) -> (c: Vec<ForceId>)
    ensures
        c@.map_values(|f: ForceId| f@) == v@.map_values(|f: ForceId| f@),
{
    let mut c: Vec<ForceId> = Vec::new();
    let mut i: usize = 0;
    while i < v.len()
        invariant
            i <= v@.len(),
            c@.len() == i,
            forall|j: int| 0 <= j < i ==> (#[trigger] c@[j])@ == v@[j]@,
        decreases v@.len() - i,
    {
        c.push(v[i].duplicate());
        i = i + 1;
    }
    assert(c@.map_values(|f: ForceId| f@) =~= v@.map_values(|f: ForceId| f@));
    c
}

/// A copy of a list of strings, string for string.
fn copy_strings(v: &Vec<String>) -> (c: Vec<String>)
    ensures
        c@.map_values(|b: String| b@) == v@.map_values(|b: String| b@),
{
    let mut c: Vec<String> = Vec::new();
    let mut i: usize = 0;
    while i < v.len()
        invariant
            i <= v@.len(),
            c@.len() == i,
            forall|j: int| 0 <= j < i ==> (#[trigger] c@[j])@ == v@[j]@,
        decreases v@.len() - i,
    {
        c.push(v[i].clone());
        i = i + 1;
    }
    assert(c@.map_values(|b: String| b@) =~= v@.map_values(|b: String| b@));
    c
}

impl StrategicEvent {
    /// A copy of this event that reads the same, field for field.
    pub fn duplicate(&self) -> (r: Self)
        ensures
            event_text(r) == event_text(*self),
    {
        match self {
            StrategicEvent::HourPassed { day, hour } => StrategicEvent::HourPassed { day: *day, hour: *hour },
            StrategicEvent::ForceDeparted { force_id, faction_id, from_cell_id, destination_cell_id, steps } => StrategicEvent::ForceDeparted {
                force_id: force_id.duplicate(),
                faction_id: faction_id.clone(),
                from_cell_id: from_cell_id.clone(),
                destination_cell_id: destination_cell_id.clone(),
                steps: *steps,
            },
            StrategicEvent::ForceMoved { force_id, faction_id, route_id, from_cell_id, to_cell_id } => StrategicEvent::ForceMoved {
                force_id: force_id.duplicate(),
                faction_id: faction_id.clone(),
                route_id: route_id.clone(),
                from_cell_id: from_cell_id.clone(),
                to_cell_id: to_cell_id.clone(),
            },
            StrategicEvent::ForceArrived { force_id, faction_id, cell_id, composition, strength, readiness, supply } =>
                StrategicEvent::ForceArrived {
                force_id: force_id.duplicate(),
                faction_id: faction_id.clone(),
                cell_id: cell_id.clone(),
                composition: composition.duplicate(),
                strength: *strength,
                readiness: *readiness,
                supply: *supply,
            },
            StrategicEvent::ForceHalted { force_id, faction_id, cell_id, reason } => StrategicEvent::ForceHalted {
                force_id: force_id.duplicate(),
                faction_id: faction_id.clone(),
                cell_id: cell_id.clone(),
                reason: *reason,
            },
            StrategicEvent::ArrivalContested { force_id, faction_id, cell_id, held_by, defender_force_ids, day } =>
                StrategicEvent::ArrivalContested {
                force_id: force_id.duplicate(),
                faction_id: faction_id.clone(),
                cell_id: cell_id.clone(),
                held_by: held_by.clone(),
                defender_force_ids: copy_force_ids(defender_force_ids),
                day: *day,
            },
            StrategicEvent::ControlTaken { force_id, faction_id, cell_id, from, building_instance_ids, day } => StrategicEvent::ControlTaken {
                force_id: force_id.duplicate(),
                faction_id: faction_id.clone(),
                cell_id: cell_id.clone(),
                from: match from {
                    Some(f) => Some(f.clone()),
                    None => None,
                },
                building_instance_ids: copy_strings(building_instance_ids),
                day: *day,
            },
            StrategicEvent::RecoveryLinkLost { faction_id, link } => StrategicEvent::RecoveryLinkLost { faction_id: faction_id.clone(), link: *link },
            StrategicEvent::FactionEliminated { faction_id, day } => StrategicEvent::FactionEliminated { faction_id: faction_id.clone(), day: *day },
            StrategicEvent::MachineProduced { faction_id, family, building_instance_id, day } => StrategicEvent::MachineProduced {
                faction_id: faction_id.clone(),
                family: *family,
                building_instance_id: building_instance_id.clone(),
                day: *day,
            },
            StrategicEvent::ProductionYielded { faction_id, building_instance_id, rule_id, output_key, amount, day } =>
                StrategicEvent::ProductionYielded {
                faction_id: faction_id.clone(),
                building_instance_id: building_instance_id.clone(),
                rule_id: rule_id.clone(),
                output_key: output_key.clone(),
                amount: *amount,
                day: *day,
            },
            StrategicEvent::ProductionSkipped { faction_id, building_instance_id, rule_id, reason, day } => StrategicEvent::ProductionSkipped {
                faction_id: faction_id.clone(),
                building_instance_id: building_instance_id.clone(),
                rule_id: rule_id.clone(),
                reason: copy_production_skip(reason),
                day: *day,
            },
            StrategicEvent::ActionSkipped { faction_id, goal, reason, day } => StrategicEvent::ActionSkipped {
                faction_id: faction_id.clone(),
                goal: *goal,
                reason: copy_action_skip(reason),
                day: *day,
            },
            StrategicEvent::BuildingStarted { faction_id, building_instance_id, def_id, cell_id, day } => StrategicEvent::BuildingStarted {
                faction_id: faction_id.clone(),
                building_instance_id: building_instance_id.clone(),
                def_id: def_id.clone(),
                cell_id: cell_id.clone(),
                day: *day,
            },
            StrategicEvent::Gathered { faction_id, resource_key, amount, day } => StrategicEvent::Gathered {
                faction_id: faction_id.clone(),
                resource_key: resource_key.clone(),
                amount: *amount,
                day: *day,
            },
        }
    }
}

/// `j` holds the record of the history `h`: its newest entries whole, the
/// fold of everything older, and the count of what was folded.
pub open spec fn records(j: StrategicJournal, h: Seq<JournalEntry>) -> bool {
    &&& j.window() == kept(h)
    &&& j.digest() == folded(h)
    &&& j.evicted() == evicted_total(h)
}

/// `entries` are `events`, in order, each stamped with this day and hour
/// and each reading as its event.
pub open spec fn stamped(entries: Seq<JournalEntry>, events: Seq<StrategicEvent>, day: u32, hour: u8) -> bool {
    &&& entries.len() == events.len()
    &&& forall|i: int|
        0 <= i < entries.len() ==> (#[trigger] entries[i]).day == day && entries[i].hour == hour && event_text(entries[i].event)
            == event_text(events[i])
}

/// The saved strategic event history: a bounded window, a digest of
/// everything older, and a count of everything ever folded.
#[derive(Clone, Debug, Default, PartialEq)]
pub struct StrategicJournal {
    entries: Vec<JournalEntry>,
    history_digest: u64,
    evicted_count: u64,
}

impl StrategicJournal {
    /// The entries still kept whole, oldest first.
    pub closed spec fn window(&self) -> Seq<JournalEntry> {
        self.entries@
    }

    /// The fold of every entry the window has dropped.
    pub closed spec fn digest(&self) -> u64 {
        self.history_digest
    }

    /// How many entries have left the window.
    pub closed spec fn evicted(&self) -> u64 {
        self.evicted_count
    }

    /// An empty journal: nothing recorded, nothing evicted, digest zero.
    pub fn new() -> (r: Self)
        ensures
            r.window().len() == 0,
            r.digest() == 0,
            r.evicted() == 0,
    {
        StrategicJournal { entries: Vec::new(), history_digest: 0, evicted_count: 0 }
    }

    /// Fold one evicted entry into the digest.
    fn absorb(&mut self, entry: &JournalEntry)
        ensures
            final(self).history_digest == fold_entry(old(self).history_digest, *entry),
            final(self).entries == old(self).entries,
            final(self).evicted_count == old(self).evicted_count,
    {
        let text = entry_string(entry);
        let folded = fnv_str(self.history_digest, text.as_str());
        self.history_digest = (folded << 7u64) | (folded >> 57u64);
    }

    /// Record one entry; the only mutator. When the window overflows, the
    /// oldest entries are folded into the digest, in order, and counted.
    pub fn push(&mut self, entry: JournalEntry)
        ensures
            ({
                let all = old(self).window().push(entry);
                let k = if all.len() > JOURNAL_WINDOW { all.len() - JOURNAL_WINDOW } else { 0 };
                &&& final(self).window() == all.skip(k)
                &&& final(self).digest() == fold_entries(old(self).digest(), all.take(k))
                &&& final(self).evicted() == if old(self).evicted() as int + k > u64::MAX as int {
                    u64::MAX as int
                } else {
                    old(self).evicted() as int + k
                }
            }),
            old(self).window().len() <= JOURNAL_WINDOW ==> final(self).window().len() <= JOURNAL_WINDOW,
    {
        let ghost all = self.entries@.push(entry);
        let ghost d0 = self.history_digest;
        let ghost e0 = self.evicted_count;
        self.entries.push(entry);
        let ghost mut j: int = 0;
        proof {
            assert(all.skip(0) =~= all);
            assert(all.take(0) =~= Seq::<JournalEntry>::empty());
        }
        while self.entries.len() > JOURNAL_WINDOW
            invariant
                0 <= j <= all.len(),
                self.entries@ == all.skip(j),
                self.history_digest == fold_entries(d0, all.take(j)),
                self.evicted_count == if e0 as int + j > u64::MAX as int { u64::MAX as int } else { e0 as int + j },
                j > 0 ==> all.len() - j >= JOURNAL_WINDOW,
            decreases self.entries@.len(),
        {
            let evicted = self.entries.remove(0);
            proof {
                assert(evicted == all[j]);
                assert(all.take(j + 1).drop_last() =~= all.take(j));
                assert(all.take(j + 1).last() == all[j]);
            }
            self.absorb(&evicted);
            self.evicted_count = self.evicted_count.saturating_add(1);
            proof {
                j = j + 1;
                assert(self.entries@ =~= all.skip(j));
            }
        }
        proof {
            let k = if all.len() > JOURNAL_WINDOW { all.len() - JOURNAL_WINDOW } else { 0 };
            assert(j == k);
        }
    }

    /// The window: the entries still kept whole, oldest first.
    pub fn recent(&self) -> (r: &Vec<JournalEntry>)
        ensures
            r@ == self.window(),
    {
        &self.entries
    }

    /// The fold of every entry the window has dropped, in the order it
    /// dropped them. Zero while nothing has been evicted.
    pub fn history_digest(&self) -> (r: u64)
        ensures
            r == self.digest(),
    {
        self.history_digest
    }

    /// Every entry ever pushed: the window plus everything folded away.
    pub fn total_recorded(&self) -> (r: u64)
        ensures
            r == if self.evicted() as int + self.window().len() > u64::MAX as int {
                u64::MAX as int
            } else {
                self.evicted() as int + self.window().len()
            },
    {
        self.evicted_count.saturating_add(self.entries.len() as u64)
    }

    /// How many entries have left the window.
    pub fn evicted_count(&self) -> (r: u64)
        ensures
            r == self.evicted(),
    {
        self.evicted_count
    }
}

} // verus!
