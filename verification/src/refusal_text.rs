//! The `Debug` form of the library's refusals, spelled out and built
//! character by character: the text a production skip carries when the
//! refusal has no reason of its own. It reads as `derive(Debug)` writes these
//! types: a unit variant by its name, a tuple variant as `Name(..)`, a struct
//! variant as `Name { field: value, .. }`; strings quoted, with a quote, a
//! backslash, a tab, a line feed, a carriage return and NUL escaped by a
//! backslash and every other ASCII control character as `\u{..}` in
//! lower-case hexadecimal; numbers in decimal; an absent value as `None`.

use vstd::prelude::*;

use crate::building::{BuildingError, BuildingState, SocketKind};
use crate::expedition::ExpeditionError;
use crate::keyed::StrSet;
use crate::production::{MachineFamily, ProductionError};
use crate::text::{chars_of, decimal, hex_digits, push_char, push_decimal, push_hex, push_str};

verus! {

/// One character as it stands inside a quoted string.
pub open spec fn escaped_char(c: char) -> Seq<char> {
    if c == '"' {
        seq!['\\', '"']
    } else if c == '\\' {
        seq!['\\', '\\']
    } else if c == '\t' {
        seq!['\\', 't']
    } else if c == '\n' {
        seq!['\\', 'n']
    } else if c == '\r' {
        seq!['\\', 'r']
    } else if c == '\0' {
        seq!['\\', '0']
    } else if (c as u32) < 0x20 || (c as u32) == 0x7f {
        seq!['\\', 'u', '{'] + hex_digits((c as u32) as nat, if (c as u32) < 16 { 1 } else { 2 }) + seq!['}']
    } else {
        seq![c]
    }
}

/// Every character of `s` as it stands inside a quoted string.
pub open spec fn escaped(s: Seq<char>) -> Seq<char>
    decreases s.len(),
{
    if s.len() == 0 {
        Seq::empty()
    } else {
        escaped(s.drop_last()) + escaped_char(s.last())
    }
}

/// A string in quotes.
pub open spec fn quoted(s: Seq<char>) -> Seq<char> {
    seq!['"'] + escaped(s) + seq!['"']
}

/// An optional string: `Some("..")` or `None`.
pub open spec fn option_text(o: Option<String>) -> Seq<char> {
    match o {
        Some(s) => "Some("@ + quoted(s@) + ")"@,
        None => "None"@,
    }
}

/// The numbers of a list, separated by a comma and a space.
pub open spec fn list_items(v: Seq<u32>) -> Seq<char>
    decreases v.len(),
{
    if v.len() == 0 {
        Seq::empty()
    } else if v.len() == 1 {
        decimal(v[0] as nat)
    } else {
        list_items(v.drop_last()) + ", "@ + decimal(v.last() as nat)
    }
}

/// A list of numbers in square brackets.
pub open spec fn list_text(v: Seq<u32>) -> Seq<char> {
    "["@ + list_items(v) + "]"@
}

/// The entries of a set's map, each as `("key", ())`.
pub open spec fn set_items(keys: Seq<Seq<char>>) -> Seq<char>
    decreases keys.len(),
{
    if keys.len() == 0 {
        Seq::empty()
    } else if keys.len() == 1 {
        "("@ + quoted(keys[0]) + ", ())"@
    } else {
        set_items(keys.drop_last()) + ", ("@ + quoted(keys.last()) + ", ())"@
    }
}

/// A set of IDs, as the derived `Debug` of the set and of its map writes it.
pub open spec fn set_text(keys: Seq<Seq<char>>) -> Seq<char> {
    "StrSet { map: StrMap { entries: ["@ + set_items(keys) + "] } }"@
}

fn put_escaped_char(out: &mut String, c: char)
    ensures
        final(out)@ == old(out)@ + escaped_char(c),
{
    let ghost start = out@;
    if c == '"' {
        push_char(out, '\\');
        push_char(out, '"');
    } else if c == '\\' {
        push_char(out, '\\');
        push_char(out, '\\');
    } else if c == '\t' {
        push_char(out, '\\');
        push_char(out, 't');
    } else if c == '\n' {
        push_char(out, '\\');
        push_char(out, 'n');
    } else if c == '\r' {
        push_char(out, '\\');
        push_char(out, 'r');
    } else if c == '\0' {
        push_char(out, '\\');
        push_char(out, '0');
    } else if (c as u32) < 0x20 || (c as u32) == 0x7f {
        push_char(out, '\\');
        push_char(out, 'u');
        push_char(out, '{');
        let n = c as u32;
        push_hex(out, n as u64, if n < 16 { 1 } else { 2 });
        push_char(out, '}');
    } else {
        push_char(out, c);
    }
    assert(out@ =~= start + escaped_char(c));
}

/// Append `s` in quotes, escaped.
pub fn put_quoted(out: &mut String, s: &str)
    ensures
        final(out)@ == old(out)@ + quoted(s@),
{
    let ghost start = out@;
    let cs = chars_of(s);
    push_char(out, '"');
    let mut i: usize = 0;
    while i < cs.len()
        invariant
            i <= cs@.len(),
            cs@ == s@,
            out@ == start + seq!['"'] + escaped(s@.take(i as int)),
        decreases cs@.len() - i,
    {
        put_escaped_char(out, cs[i]);
        proof {
            assert(s@.take(i + 1).drop_last() =~= s@.take(i as int));
            assert(s@.take(i + 1).last() == cs@[i as int]);
        }
        i = i + 1;
    }
    push_char(out, '"');
    assert(s@.take(i as int) =~= s@);
    assert(out@ =~= start + quoted(s@));
}

fn put_option(out: &mut String, o: &Option<String>)
    ensures
        final(out)@ == old(out)@ + option_text(*o),
{
    let ghost start = out@;
    match o {
        Some(s) => {
            push_str(out, "Some(");
            put_quoted(out, s.as_str());
            push_str(out, ")");
        },
        None => {
            push_str(out, "None");
        },
    }
    assert(out@ =~= start + option_text(*o));
}

fn put_list(out: &mut String, v: &Vec<u32>)
    ensures
        final(out)@ == old(out)@ + list_text(v@),
{
    let ghost start = out@;
    push_str(out, "[");
    let mut i: usize = 0;
    while i < v.len()
        invariant
            i <= v@.len(),
            out@ == start + "["@ + list_items(v@.take(i as int)),
        decreases v@.len() - i,
    {
        proof {
            assert(v@.take(i + 1).drop_last() =~= v@.take(i as int));
        }
        if i > 0 {
            push_str(out, ", ");
        }
        push_decimal(out, v[i] as u64);
        i = i + 1;
        proof {
            if i == 1 {
                assert(v@.take(i as int) =~= seq![v@[0]]);
                assert(v@.take(0) =~= Seq::<u32>::empty());
            }
        }
    }
    push_str(out, "]");
    assert(v@.take(i as int) =~= v@);
    assert(out@ =~= start + list_text(v@));
}

fn put_set(out: &mut String, s: &StrSet)
    ensures
        final(out)@ == old(out)@ + set_text(s.order()),
{
    let ghost start = out@;
    push_str(out, "StrSet { map: StrMap { entries: [");
    let mut i: usize = 0;
    while i < s.len()
        invariant
            i <= s.order().len(),
            out@ == start + "StrSet { map: StrMap { entries: ["@ + set_items(s.order().take(i as int)),
        decreases s.order().len() - i,
    {
        proof {
            assert(s.order().take(i + 1).drop_last() =~= s.order().take(i as int));
        }
        if i > 0 {
            push_str(out, ", (");
        } else {
            push_str(out, "(");
        }
        put_quoted(out, s.at(i).as_str());
        push_str(out, ", ())");
        i = i + 1;
        proof {
            if i == 1 {
                assert(s.order().take(i as int) =~= seq![s.order()[0]]);
                assert(s.order().take(0) =~= Seq::<Seq<char>>::empty());
            }
        }
    }
    push_str(out, "] } }");
    assert(s.order().take(i as int) =~= s.order());
    assert(out@ =~= start + set_text(s.order()));
}

/// The `Debug` form of a `SocketKind`: its variant's name.
pub open spec fn socket_kind_text(v: SocketKind) -> Seq<char> {
    match v {
        SocketKind::Entrance => "Entrance"@,
        SocketKind::Road => "Road"@,
        SocketKind::Worker => "Worker"@,
        SocketKind::Vendor => "Vendor"@,
        SocketKind::Defender => "Defender"@,
        SocketKind::Spawn => "Spawn"@,
        SocketKind::Delivery => "Delivery"@,
        SocketKind::Storage => "Storage"@,
    }
}

fn put_socket_kind(out: &mut String, v: SocketKind)
    ensures
        final(out)@ == old(out)@ + socket_kind_text(v),
{
    match v {
        SocketKind::Entrance => push_str(out, "Entrance"),
        SocketKind::Road => push_str(out, "Road"),
        SocketKind::Worker => push_str(out, "Worker"),
        SocketKind::Vendor => push_str(out, "Vendor"),
        SocketKind::Defender => push_str(out, "Defender"),
        SocketKind::Spawn => push_str(out, "Spawn"),
        SocketKind::Delivery => push_str(out, "Delivery"),
        SocketKind::Storage => push_str(out, "Storage"),
    }
}

/// The `Debug` form of a `BuildingState`: its variant's name.
pub open spec fn building_state_text(v: BuildingState) -> Seq<char> {
    match v {
        BuildingState::UnderConstruction => "UnderConstruction"@,
        BuildingState::Operational => "Operational"@,
        BuildingState::Damaged => "Damaged"@,
        BuildingState::Ruined => "Ruined"@,
        BuildingState::Captured => "Captured"@,
    }
}

fn put_building_state(out: &mut String, v: BuildingState)
    ensures
        final(out)@ == old(out)@ + building_state_text(v),
{
    match v {
        BuildingState::UnderConstruction => push_str(out, "UnderConstruction"),
        BuildingState::Operational => push_str(out, "Operational"),
        BuildingState::Damaged => push_str(out, "Damaged"),
        BuildingState::Ruined => push_str(out, "Ruined"),
        BuildingState::Captured => push_str(out, "Captured"),
    }
}

/// The `Debug` form of a `MachineFamily`: its variant's name.
pub open spec fn machine_family_text(v: MachineFamily) -> Seq<char> {
    match v {
        MachineFamily::MechanicalDog => "MechanicalDog"@,
        MachineFamily::MechanicalCavalry => "MechanicalCavalry"@,
        MachineFamily::MechanicalBear => "MechanicalBear"@,
        MachineFamily::MechanicalElephant => "MechanicalElephant"@,
        MachineFamily::Walker => "Walker"@,
        MachineFamily::SteamWagon => "SteamWagon"@,
        MachineFamily::Rocket => "Rocket"@,
        MachineFamily::Airship => "Airship"@,
    }
}

fn put_machine_family(out: &mut String, v: MachineFamily)
    ensures
        final(out)@ == old(out)@ + machine_family_text(v),
{
    match v {
        MachineFamily::MechanicalDog => push_str(out, "MechanicalDog"),
        MachineFamily::MechanicalCavalry => push_str(out, "MechanicalCavalry"),
        MachineFamily::MechanicalBear => push_str(out, "MechanicalBear"),
        MachineFamily::MechanicalElephant => push_str(out, "MechanicalElephant"),
        MachineFamily::Walker => push_str(out, "Walker"),
        MachineFamily::SteamWagon => push_str(out, "SteamWagon"),
        MachineFamily::Rocket => push_str(out, "Rocket"),
        MachineFamily::Airship => push_str(out, "Airship"),
    }
}

/// The `Debug` form of a `ExpeditionError`, as `derive(Debug)` writes it.
pub open spec fn expedition_error_text(e: ExpeditionError) -> Seq<char> {
    match e {
        ExpeditionError::InvalidStableId { field, value } => "InvalidStableId { field: "@ + quoted(field@) + ", value: "@ + quoted(value@) + " }"@,
        ExpeditionError::EmptyParty => "EmptyParty"@,
        ExpeditionError::UnknownLocation { location_id } => "UnknownLocation { location_id: "@ + quoted(location_id@) + " }"@,
        ExpeditionError::MilestoneAlreadyRecorded { character_id, milestone_id } => "MilestoneAlreadyRecorded { character_id: "@ + quoted(character_id@) + ", milestone_id: "@ + quoted(milestone_id@) + " }"@,
        ExpeditionError::UnknownRecruit { character_id } => "UnknownRecruit { character_id: "@ + quoted(character_id@) + " }"@,
    }
}

/// Append the `Debug` form of `e`.
pub fn put_expedition_error(out: &mut String, e: &ExpeditionError)
    ensures
        final(out)@ == old(out)@ + expedition_error_text(*e),
{
    let ghost start = out@;
    match e {
        ExpeditionError::InvalidStableId { field, value } => {
            push_str(out, "InvalidStableId { field: ");
            put_quoted(out, field);
            push_str(out, ", value: ");
            put_quoted(out, value.as_str());
            push_str(out, " }");
        },
        ExpeditionError::EmptyParty => {
            push_str(out, "EmptyParty");
        },
        ExpeditionError::UnknownLocation { location_id } => {
            push_str(out, "UnknownLocation { location_id: ");
            put_quoted(out, location_id.as_str());
            push_str(out, " }");
        },
        ExpeditionError::MilestoneAlreadyRecorded { character_id, milestone_id } => {
            push_str(out, "MilestoneAlreadyRecorded { character_id: ");
            put_quoted(out, character_id.as_str());
            push_str(out, ", milestone_id: ");
            put_quoted(out, milestone_id.as_str());
            push_str(out, " }");
        },
        ExpeditionError::UnknownRecruit { character_id } => {
            push_str(out, "UnknownRecruit { character_id: ");
            put_quoted(out, character_id.as_str());
            push_str(out, " }");
        },
    }
    assert(out@ =~= start + expedition_error_text(*e));
}

/// The `Debug` form of a `BuildingError`, as `derive(Debug)` writes it.
pub open spec fn building_error_text(e: BuildingError) -> Seq<char> {
    match e {
        BuildingError::MalformedId(x) => "MalformedId("@ + expedition_error_text(x) + ")"@,
        BuildingError::WrongIdPrefix { found, expected } => "WrongIdPrefix { found: "@ + quoted(found@) + ", expected: "@ + quoted(expected@) + " }"@,
        BuildingError::Duplicate { id } => "Duplicate { id: "@ + quoted(id@) + " }"@,
        BuildingError::UnknownDefinition { id } => "UnknownDefinition { id: "@ + quoted(id@) + " }"@,
        BuildingError::UnknownBuilding { id } => "UnknownBuilding { id: "@ + quoted(id@) + " }"@,
        BuildingError::UnknownCell { cell_id } => "UnknownCell { cell_id: "@ + quoted(cell_id@) + " }"@,
        BuildingError::CellNotHeld { cell_id, faction_id, held_by } => "CellNotHeld { cell_id: "@ + quoted(cell_id@) + ", faction_id: "@ + quoted(faction_id@) + ", held_by: "@ + option_text(held_by) + " }"@,
        BuildingError::IncompatibleFaction { id, faction_id } => "IncompatibleFaction { id: "@ + quoted(id@) + ", faction_id: "@ + quoted(faction_id@) + " }"@,
        BuildingError::EnvelopeOverlap { cell_id, occupied, requested, capacity } => "EnvelopeOverlap { cell_id: "@ + quoted(cell_id@) + ", occupied: "@ + decimal(occupied as nat) + ", requested: "@ + decimal(requested as nat) + ", capacity: "@ + decimal(capacity as nat) + " }"@,
        BuildingError::SocketOutsideEnvelope { socket_id, offset_cells, footprint_cells } => "SocketOutsideEnvelope { socket_id: "@ + quoted(socket_id@) + ", offset_cells: "@ + decimal(offset_cells as nat) + ", footprint_cells: "@ + decimal(footprint_cells as nat) + " }"@,
        BuildingError::SocketInWrongField { socket_id, kind, field } => "SocketInWrongField { socket_id: "@ + quoted(socket_id@) + ", kind: "@ + socket_kind_text(kind) + ", field: "@ + quoted(field@) + " }"@,
        BuildingError::MichaelBuildingProducesPeople { id, rule_id } => "MichaelBuildingProducesPeople { id: "@ + quoted(id@) + ", rule_id: "@ + quoted(rule_id@) + " }"@,
        BuildingError::TimerDrivenHumanRole { id, rule_id } => "TimerDrivenHumanRole { id: "@ + quoted(id@) + ", rule_id: "@ + quoted(rule_id@) + " }"@,
        BuildingError::HumanRoleWithoutRecruitmentSupport { id, rule_id } => "HumanRoleWithoutRecruitmentSupport { id: "@ + quoted(id@) + ", rule_id: "@ + quoted(rule_id@) + " }"@,
        BuildingError::NeedsDecision { id, field } => "NeedsDecision { id: "@ + quoted(id@) + ", field: "@ + quoted(field@) + " }"@,
        BuildingError::MalformedTiers { id, found } => "MalformedTiers { id: "@ + quoted(id@) + ", found: "@ + list_text(found@) + " }"@,
        BuildingError::ProductionAboveTopTier { id, rule_id, minimum_tier } => "ProductionAboveTopTier { id: "@ + quoted(id@) + ", rule_id: "@ + quoted(rule_id@) + ", minimum_tier: "@ + decimal(minimum_tier as nat) + " }"@,
        BuildingError::AtTopTier { id, tier } => "AtTopTier { id: "@ + quoted(id@) + ", tier: "@ + decimal(tier as nat) + " }"@,
        BuildingError::RequirementsNotMet { id, missing } => "RequirementsNotMet { id: "@ + quoted(id@) + ", missing: "@ + set_text(missing.order()) + " }"@,
        BuildingError::WrongState { id, state, wanted } => "WrongState { id: "@ + quoted(id@) + ", state: "@ + building_state_text(state) + ", wanted: "@ + quoted(wanted@) + " }"@,
        BuildingError::AlreadyHeld { id, faction_id } => "AlreadyHeld { id: "@ + quoted(id@) + ", faction_id: "@ + quoted(faction_id@) + " }"@,
    }
}

/// Append the `Debug` form of `e`.
#[verifier::rlimit(40)]
pub fn put_building_error(out: &mut String, e: &BuildingError)
    ensures
        final(out)@ == old(out)@ + building_error_text(*e),
{
    let ghost start = out@;
    match e {
        BuildingError::MalformedId(x) => {
            push_str(out, "MalformedId(");
            put_expedition_error(out, x);
            push_str(out, ")");
            assert(out@ =~= start + building_error_text(*e));
        },
        BuildingError::WrongIdPrefix { found, expected } => {
            push_str(out, "WrongIdPrefix { found: ");
            put_quoted(out, found.as_str());
            push_str(out, ", expected: ");
            put_quoted(out, expected);
            push_str(out, " }");
            assert(out@ =~= start + building_error_text(*e));
        },
        BuildingError::Duplicate { id } => {
            push_str(out, "Duplicate { id: ");
            put_quoted(out, id.as_str());
            push_str(out, " }");
            assert(out@ =~= start + building_error_text(*e));
        },
        BuildingError::UnknownDefinition { id } => {
            push_str(out, "UnknownDefinition { id: ");
            put_quoted(out, id.as_str());
            push_str(out, " }");
            assert(out@ =~= start + building_error_text(*e));
        },
        BuildingError::UnknownBuilding { id } => {
            push_str(out, "UnknownBuilding { id: ");
            put_quoted(out, id.as_str());
            push_str(out, " }");
            assert(out@ =~= start + building_error_text(*e));
        },
        BuildingError::UnknownCell { cell_id } => {
            push_str(out, "UnknownCell { cell_id: ");
            put_quoted(out, cell_id.as_str());
            push_str(out, " }");
            assert(out@ =~= start + building_error_text(*e));
        },
        BuildingError::CellNotHeld { cell_id, faction_id, held_by } => {
            push_str(out, "CellNotHeld { cell_id: ");
            put_quoted(out, cell_id.as_str());
            push_str(out, ", faction_id: ");
            put_quoted(out, faction_id.as_str());
            push_str(out, ", held_by: ");
            put_option(out, held_by);
            push_str(out, " }");
            assert(out@ =~= start + building_error_text(*e));
        },
        BuildingError::IncompatibleFaction { id, faction_id } => {
            push_str(out, "IncompatibleFaction { id: ");
            put_quoted(out, id.as_str());
            push_str(out, ", faction_id: ");
            put_quoted(out, faction_id.as_str());
            push_str(out, " }");
            assert(out@ =~= start + building_error_text(*e));
        },
        BuildingError::EnvelopeOverlap { cell_id, occupied, requested, capacity } => {
            push_str(out, "EnvelopeOverlap { cell_id: ");
            put_quoted(out, cell_id.as_str());
            push_str(out, ", occupied: ");
            push_decimal(out, *occupied as u64);
            push_str(out, ", requested: ");
            push_decimal(out, *requested as u64);
            push_str(out, ", capacity: ");
            push_decimal(out, *capacity as u64);
            push_str(out, " }");
            assert(out@ =~= start + building_error_text(*e));
        },
        BuildingError::SocketOutsideEnvelope { socket_id, offset_cells, footprint_cells } => {
            push_str(out, "SocketOutsideEnvelope { socket_id: ");
            put_quoted(out, socket_id.as_str());
            push_str(out, ", offset_cells: ");
            push_decimal(out, *offset_cells as u64);
            push_str(out, ", footprint_cells: ");
            push_decimal(out, *footprint_cells as u64);
            push_str(out, " }");
            assert(out@ =~= start + building_error_text(*e));
        },
        BuildingError::SocketInWrongField { socket_id, kind, field } => {
            push_str(out, "SocketInWrongField { socket_id: ");
            put_quoted(out, socket_id.as_str());
            push_str(out, ", kind: ");
            put_socket_kind(out, *kind);
            push_str(out, ", field: ");
            put_quoted(out, field);
            push_str(out, " }");
            assert(out@ =~= start + building_error_text(*e));
        },
        BuildingError::MichaelBuildingProducesPeople { id, rule_id } => {
            push_str(out, "MichaelBuildingProducesPeople { id: ");
            put_quoted(out, id.as_str());
            push_str(out, ", rule_id: ");
            put_quoted(out, rule_id.as_str());
            push_str(out, " }");
            assert(out@ =~= start + building_error_text(*e));
        },
        BuildingError::TimerDrivenHumanRole { id, rule_id } => {
            push_str(out, "TimerDrivenHumanRole { id: ");
            put_quoted(out, id.as_str());
            push_str(out, ", rule_id: ");
            put_quoted(out, rule_id.as_str());
            push_str(out, " }");
            assert(out@ =~= start + building_error_text(*e));
        },
        BuildingError::HumanRoleWithoutRecruitmentSupport { id, rule_id } => {
            push_str(out, "HumanRoleWithoutRecruitmentSupport { id: ");
            put_quoted(out, id.as_str());
            push_str(out, ", rule_id: ");
            put_quoted(out, rule_id.as_str());
            push_str(out, " }");
            assert(out@ =~= start + building_error_text(*e));
        },
        BuildingError::NeedsDecision { id, field } => {
            push_str(out, "NeedsDecision { id: ");
            put_quoted(out, id.as_str());
            push_str(out, ", field: ");
            put_quoted(out, field);
            push_str(out, " }");
            assert(out@ =~= start + building_error_text(*e));
        },
        BuildingError::MalformedTiers { id, found } => {
            push_str(out, "MalformedTiers { id: ");
            put_quoted(out, id.as_str());
            push_str(out, ", found: ");
            put_list(out, found);
            push_str(out, " }");
            assert(out@ =~= start + building_error_text(*e));
        },
        BuildingError::ProductionAboveTopTier { id, rule_id, minimum_tier } => {
            push_str(out, "ProductionAboveTopTier { id: ");
            put_quoted(out, id.as_str());
            push_str(out, ", rule_id: ");
            put_quoted(out, rule_id.as_str());
            push_str(out, ", minimum_tier: ");
            push_decimal(out, *minimum_tier as u64);
            push_str(out, " }");
            assert(out@ =~= start + building_error_text(*e));
        },
        BuildingError::AtTopTier { id, tier } => {
            push_str(out, "AtTopTier { id: ");
            put_quoted(out, id.as_str());
            push_str(out, ", tier: ");
            push_decimal(out, *tier as u64);
            push_str(out, " }");
            assert(out@ =~= start + building_error_text(*e));
        },
        BuildingError::RequirementsNotMet { id, missing } => {
            push_str(out, "RequirementsNotMet { id: ");
            put_quoted(out, id.as_str());
            push_str(out, ", missing: ");
            put_set(out, missing);
            push_str(out, " }");
            assert(out@ =~= start + building_error_text(*e));
        },
        BuildingError::WrongState { id, state, wanted } => {
            push_str(out, "WrongState { id: ");
            put_quoted(out, id.as_str());
            push_str(out, ", state: ");
            put_building_state(out, *state);
            push_str(out, ", wanted: ");
            put_quoted(out, wanted);
            push_str(out, " }");
            assert(out@ =~= start + building_error_text(*e));
        },
        BuildingError::AlreadyHeld { id, faction_id } => {
            push_str(out, "AlreadyHeld { id: ");
            put_quoted(out, id.as_str());
            push_str(out, ", faction_id: ");
            put_quoted(out, faction_id.as_str());
            push_str(out, " }");
            assert(out@ =~= start + building_error_text(*e));
        },
    }
    assert(out@ =~= start + building_error_text(*e));
}

/// The `Debug` form of a `ProductionError`, as `derive(Debug)` writes it.
pub open spec fn production_error_text(e: ProductionError) -> Seq<char> {
    match e {
        ProductionError::MalformedId(x) => "MalformedId("@ + expedition_error_text(x) + ")"@,
        ProductionError::WrongIdPrefix { found, expected } => "WrongIdPrefix { found: "@ + quoted(found@) + ", expected: "@ + quoted(expected@) + " }"@,
        ProductionError::Duplicate { id } => "Duplicate { id: "@ + quoted(id@) + " }"@,
        ProductionError::UnknownDefinition { id } => "UnknownDefinition { id: "@ + quoted(id@) + " }"@,
        ProductionError::DuplicateDefinition { id } => "DuplicateDefinition { id: "@ + quoted(id@) + " }"@,
        ProductionError::MichaelActorKitNamesANonMachine { faction_id, entry_id } => "MichaelActorKitNamesANonMachine { faction_id: "@ + quoted(faction_id@) + ", entry_id: "@ + quoted(entry_id@) + " }"@,
        ProductionError::UnknownBuilding { building_instance_id } => "UnknownBuilding { building_instance_id: "@ + quoted(building_instance_id@) + " }"@,
        ProductionError::NoSuchRule { building_instance_id, rule_index } => "NoSuchRule { building_instance_id: "@ + quoted(building_instance_id@) + ", rule_index: "@ + decimal(rule_index as nat) + " }"@,
        ProductionError::NotOperational { building_instance_id, state } => "NotOperational { building_instance_id: "@ + quoted(building_instance_id@) + ", state: "@ + building_state_text(state) + " }"@,
        ProductionError::BelowMinimumTier { building_instance_id, tier, minimum_tier } => "BelowMinimumTier { building_instance_id: "@ + quoted(building_instance_id@) + ", tier: "@ + decimal(tier as nat) + ", minimum_tier: "@ + decimal(minimum_tier as nat) + " }"@,
        ProductionError::NotAMachineRule { building_instance_id, rule_id } => "NotAMachineRule { building_instance_id: "@ + quoted(building_instance_id@) + ", rule_id: "@ + quoted(rule_id@) + " }"@,
        ProductionError::FamilyMismatch { rule_id, def_id, rule_family, definition_family } => "FamilyMismatch { rule_id: "@ + quoted(rule_id@) + ", def_id: "@ + quoted(def_id@) + ", rule_family: "@ + machine_family_text(rule_family) + ", definition_family: "@ + machine_family_text(definition_family) + " }"@,
        ProductionError::UnknownFaction { faction_id } => "UnknownFaction { faction_id: "@ + quoted(faction_id@) + " }"@,
        ProductionError::InsufficientResource { faction_id, key, held, needed } => "InsufficientResource { faction_id: "@ + quoted(faction_id@) + ", key: "@ + quoted(key@) + ", held: "@ + decimal(held as nat) + ", needed: "@ + decimal(needed as nat) + " }"@,
        ProductionError::Building(x) => "Building("@ + building_error_text(x) + ")"@,
    }
}

/// Append the `Debug` form of `e`.
pub fn put_production_error(out: &mut String, e: &ProductionError)
    ensures
        final(out)@ == old(out)@ + production_error_text(*e),
{
    let ghost start = out@;
    match e {
        ProductionError::MalformedId(x) => {
            push_str(out, "MalformedId(");
            put_expedition_error(out, x);
            push_str(out, ")");
        },
        ProductionError::WrongIdPrefix { found, expected } => {
            push_str(out, "WrongIdPrefix { found: ");
            put_quoted(out, found.as_str());
            push_str(out, ", expected: ");
            put_quoted(out, expected);
            push_str(out, " }");
        },
        ProductionError::Duplicate { id } => {
            push_str(out, "Duplicate { id: ");
            put_quoted(out, id.as_str());
            push_str(out, " }");
        },
        ProductionError::UnknownDefinition { id } => {
            push_str(out, "UnknownDefinition { id: ");
            put_quoted(out, id.as_str());
            push_str(out, " }");
        },
        ProductionError::DuplicateDefinition { id } => {
            push_str(out, "DuplicateDefinition { id: ");
            put_quoted(out, id.as_str());
            push_str(out, " }");
        },
        ProductionError::MichaelActorKitNamesANonMachine { faction_id, entry_id } => {
            push_str(out, "MichaelActorKitNamesANonMachine { faction_id: ");
            put_quoted(out, faction_id.as_str());
            push_str(out, ", entry_id: ");
            put_quoted(out, entry_id.as_str());
            push_str(out, " }");
        },
        ProductionError::UnknownBuilding { building_instance_id } => {
            push_str(out, "UnknownBuilding { building_instance_id: ");
            put_quoted(out, building_instance_id.as_str());
            push_str(out, " }");
        },
        ProductionError::NoSuchRule { building_instance_id, rule_index } => {
            push_str(out, "NoSuchRule { building_instance_id: ");
            put_quoted(out, building_instance_id.as_str());
            push_str(out, ", rule_index: ");
            push_decimal(out, *rule_index as u64);
            push_str(out, " }");
        },
        ProductionError::NotOperational { building_instance_id, state } => {
            push_str(out, "NotOperational { building_instance_id: ");
            put_quoted(out, building_instance_id.as_str());
            push_str(out, ", state: ");
            put_building_state(out, *state);
            push_str(out, " }");
        },
        ProductionError::BelowMinimumTier { building_instance_id, tier, minimum_tier } => {
            push_str(out, "BelowMinimumTier { building_instance_id: ");
            put_quoted(out, building_instance_id.as_str());
            push_str(out, ", tier: ");
            push_decimal(out, *tier as u64);
            push_str(out, ", minimum_tier: ");
            push_decimal(out, *minimum_tier as u64);
            push_str(out, " }");
        },
        ProductionError::NotAMachineRule { building_instance_id, rule_id } => {
            push_str(out, "NotAMachineRule { building_instance_id: ");
            put_quoted(out, building_instance_id.as_str());
            push_str(out, ", rule_id: ");
            put_quoted(out, rule_id.as_str());
            push_str(out, " }");
        },
        ProductionError::FamilyMismatch { rule_id, def_id, rule_family, definition_family } => {
            push_str(out, "FamilyMismatch { rule_id: ");
            put_quoted(out, rule_id.as_str());
            push_str(out, ", def_id: ");
            put_quoted(out, def_id.as_str());
            push_str(out, ", rule_family: ");
            put_machine_family(out, *rule_family);
            push_str(out, ", definition_family: ");
            put_machine_family(out, *definition_family);
            push_str(out, " }");
        },
        ProductionError::UnknownFaction { faction_id } => {
            push_str(out, "UnknownFaction { faction_id: ");
            put_quoted(out, faction_id.as_str());
            push_str(out, " }");
        },
        ProductionError::InsufficientResource { faction_id, key, held, needed } => {
            push_str(out, "InsufficientResource { faction_id: ");
            put_quoted(out, faction_id.as_str());
            push_str(out, ", key: ");
            put_quoted(out, key.as_str());
            push_str(out, ", held: ");
            push_decimal(out, *held as u64);
            push_str(out, ", needed: ");
            push_decimal(out, *needed as u64);
            push_str(out, " }");
        },
        ProductionError::Building(x) => {
            push_str(out, "Building(");
            put_building_error(out, x);
            push_str(out, ")");
        },
    }
    assert(out@ =~= start + production_error_text(*e));
}


} // verus!
