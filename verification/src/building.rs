//! What a building *is* (authored, [`BuildingDefinition`]) and what a
//! building *is right now* (saved, [`BuildingInstance`]).
//!
//! Nothing essential stands outside a building's envelope: every socket's
//! offset lands inside the declared footprint, and the envelopes on one cell
//! may not sum past [`CELL_CAPACITY_CELLS`]. Buildings do not manufacture
//! people: a definition compatible with Michael's faction whose production
//! names a human role does not load, and for the other factions a human-role
//! rule loads only as recruitment support, never on a timer.

use vstd::prelude::*;

use crate::expedition::{invalid_id, is_stable_id, require_stable_id, ExpeditionError, ExpeditionState};
use crate::faction::{ConceptKey, FACTION_ID_PREFIX};
use crate::geography::{has_location, holder, Geography};
use crate::keyed::{keys_of, lemma_as_map_dom, StrMap, StrSet};
use crate::production::MachineFamily;
use crate::text::{owned, seq_starts_with, starts_with, str_eq, strip_prefix};

verus! {

/// The prefix every building definition ID carries.
pub const BUILDING_ID_PREFIX: &'static str = "building.";

/// The prefix every placed building instance ID carries.
pub const BUILDING_INSTANCE_ID_PREFIX: &'static str = "building_instance.";

/// The first tier every building is placed at.
pub const FIRST_TIER: u32 = 1;

/// The highest tier an upgrade climbs to. Needs decision; a placeholder.
pub const TIER_CAP: u32 = 3;

/// How much building one map cell holds, in abstract envelope cells. Needs
/// decision; a placeholder.
pub const CELL_CAPACITY_CELLS: u32 = 12;

/// The hit points a captured building stands up with.
pub const CAPTURE_HP_RESTORED: u32 = 1;

/// What went wrong loading, placing, or acting on a building.
#[derive(Clone, Debug, PartialEq)]
pub enum BuildingError {
    MalformedId(ExpeditionError),
    WrongIdPrefix { found: String, expected: &'static str },
    Duplicate { id: String },
    UnknownDefinition { id: String },
    UnknownBuilding { id: String },
    UnknownCell { cell_id: String },
    CellNotHeld { cell_id: String, faction_id: String, held_by: Option<String> },
    IncompatibleFaction { id: String, faction_id: String },
    EnvelopeOverlap { cell_id: String, occupied: u32, requested: u32, capacity: u32 },
    SocketOutsideEnvelope { socket_id: String, offset_cells: u32, footprint_cells: u32 },
    SocketInWrongField { socket_id: String, kind: SocketKind, field: &'static str },
    MichaelBuildingProducesPeople { id: String, rule_id: String },
    TimerDrivenHumanRole { id: String, rule_id: String },
    HumanRoleWithoutRecruitmentSupport { id: String, rule_id: String },
    NeedsDecision { id: String, field: &'static str },
    MalformedTiers { id: String, found: Vec<u32> },
    ProductionAboveTopTier { id: String, rule_id: String, minimum_tier: u32 },
    AtTopTier { id: String, tier: u32 },
    RequirementsNotMet { id: String, missing: StrSet },
    WrongState { id: String, state: BuildingState, wanted: &'static str },
    AlreadyHeld { id: String, faction_id: String },
}

/// Where a socket sits and what stands in it.
#[derive(Clone, Copy, Debug, PartialEq, Eq, PartialOrd, Ord, Structural)]
pub enum SocketKind {
    Entrance,
    Road,
    Worker,
    Vendor,
    Defender,
    Spawn,
    Delivery,
    Storage,
}

impl Default for SocketKind {
    fn default() -> (r: Self)
        ensures
            r == SocketKind::Entrance,
    {
        SocketKind::Entrance
    }
}

/// The four socket fields a definition authors.
pub open spec fn field_name(kind: SocketKind) -> Seq<char> {
    match kind {
        SocketKind::Entrance => "entrance_sockets"@,
        SocketKind::Road => "road_sockets"@,
        SocketKind::Worker | SocketKind::Vendor | SocketKind::Defender | SocketKind::Spawn => "actor_sockets"@,
        SocketKind::Delivery | SocketKind::Storage => "delivery_sockets"@,
    }
}

impl SocketKind {
    pub const ALL: [SocketKind; 8] = [
        SocketKind::Entrance,
        SocketKind::Road,
        SocketKind::Worker,
        SocketKind::Vendor,
        SocketKind::Defender,
        SocketKind::Spawn,
        SocketKind::Delivery,
        SocketKind::Storage,
    ];

    /// Which of the four socket fields this kind is authored in.
    pub fn field(self) -> (r: &'static str)
        ensures
            r@ == field_name(self),
    {
        match self {
            SocketKind::Entrance => "entrance_sockets",
            SocketKind::Road => "road_sockets",
            SocketKind::Worker | SocketKind::Vendor | SocketKind::Defender | SocketKind::Spawn => "actor_sockets",
            SocketKind::Delivery | SocketKind::Storage => "delivery_sockets",
        }
    }
}

/// One declared position inside a building's envelope.
#[derive(Clone, Debug, Default, PartialEq, Eq)]
pub struct BuildingSocket {
    pub id: String,
    pub kind: SocketKind,
    /// Which envelope cell of the footprint the socket sits in, from zero.
    pub offset_cells: u32,
}

impl BuildingSocket {
    /// An owned copy.
    pub fn duplicate(&self) -> (r: BuildingSocket)
        ensures
            r == *self,
    {
        BuildingSocket { id: self.id.clone(), kind: self.kind, offset_cells: self.offset_cells }
    }
}

/// What a production rule makes.
#[derive(Clone, Debug, PartialEq, Eq)]
pub enum ProductionOutput {
    /// A machine, of one of the eight families.
    Machine { family: MachineFamily },
    Capacity,
    Service,
    /// A person in a role: legal only as recruitment support.
    HumanRole { role: String },
}

impl Default for ProductionOutput {
    fn default() -> (r: Self)
        ensures
            r == (ProductionOutput::Machine { family: MachineFamily::MechanicalDog }),
    {
        ProductionOutput::Machine { family: MachineFamily::MechanicalDog }
    }
}

/// One thing a building produces, and how often.
#[derive(Clone, Debug, Default, PartialEq, Eq)]
pub struct ProductionRule {
    pub id: String,
    pub output: ProductionOutput,
    pub output_key: String,
    pub amount: u32,
    /// Hours between yields; zero means "not timer-driven".
    pub interval_hours: u32,
    /// The tier at which this rule starts applying.
    pub minimum_tier: u32,
    /// What one yield costs the producing faction.
    pub cost: StrMap<u32>,
}

/// One authored tier of a building.
#[derive(Clone, Debug, Default, PartialEq, Eq)]
pub struct TierState {
    pub tier: u32,
    pub construction_hours: u32,
    pub construction_requirements: StrSet,
    pub hit_points: u32,
    pub notes: String,
}

/// Whether this kind of building changes hands or comes down.
#[derive(Clone, Copy, Debug, PartialEq, Eq, Structural)]
pub enum CaptureRules {
    Capturable,
    DestroyOnly,
    /// Not decided for this building type; refused at load.
    NeedsDecision,
}

impl Default for CaptureRules {
    fn default() -> (r: Self)
        ensures
            r == CaptureRules::NeedsDecision,
    {
        CaptureRules::NeedsDecision
    }
}

/// What is left when a building is ruined.
#[derive(Clone, Copy, Debug, PartialEq, Eq, Structural)]
pub enum RuinState {
    LeavesRubble { footprint_cells: u32 },
    ClearsCompletely,
    /// Not decided for this building type; refused at load.
    NeedsDecision,
}

impl Default for RuinState {
    fn default() -> (r: Self)
        ensures
            r == RuinState::NeedsDecision,
    {
        RuinState::NeedsDecision
    }
}

/// A building's authored design.
#[derive(Clone, Debug, Default, PartialEq, Eq)]
pub struct BuildingDefinition {
    pub id: String,
    pub faction_compatibility: Vec<ConceptKey>,
    pub function: String,
    pub footprint_cells: u32,
    pub clearance_cells: u32,
    pub height_class: String,
    pub entrance_sockets: Vec<BuildingSocket>,
    pub road_sockets: Vec<BuildingSocket>,
    pub actor_sockets: Vec<BuildingSocket>,
    pub delivery_sockets: Vec<BuildingSocket>,
    pub allowed_terrain: StrSet,
    pub maximum_slope: u8,
    pub construction_cost: StrMap<u32>,
    pub construction_requirements: StrSet,
    pub tier_states: Vec<TierState>,
    pub production: Vec<ProductionRule>,
    pub services: StrSet,
    pub recruitment_support: StrSet,
    pub capture_rules: CaptureRules,
    pub ruin_state: RuinState,
    pub dungeon_relationship: String,
    pub loot_relationship: String,
}

/// Every socket of one field sits in that field and inside the footprint.
pub open spec fn field_ok(field: Seq<char>, sockets: Seq<BuildingSocket>, footprint: u32) -> bool {
    forall|i: int|
        0 <= i < sockets.len() ==> field_name((#[trigger] sockets[i]).kind) == field
            && sockets[i].offset_cells < footprint
}

/// The refusal checking one socket field gives: at the first socket that is
/// filed under another field or sits outside the footprint, the first of
/// those two faults it has.
pub open spec fn field_refusal(field: Seq<char>, sockets: Seq<BuildingSocket>, footprint: u32, e: BuildingError) -> bool {
    exists|i: int|
        #![trigger sockets[i]]
        {
            &&& 0 <= i < sockets.len()
            &&& !(field_name(sockets[i].kind) == field && sockets[i].offset_cells < footprint)
            &&& forall|j: int| 0 <= j < i ==> field_name((#[trigger] sockets[j]).kind) == field && sockets[j].offset_cells < footprint
            &&& if field_name(sockets[i].kind) != field {
                e matches BuildingError::SocketInWrongField { socket_id, kind, field: f } && socket_id@ == sockets[i].id@ && kind
                    == sockets[i].kind && f@ == field
            } else {
                e matches BuildingError::SocketOutsideEnvelope { socket_id, offset_cells, footprint_cells } && socket_id@
                    == sockets[i].id@ && offset_cells == sockets[i].offset_cells && footprint_cells == footprint
            }
        }
}

/// The refusal for the first socket field, in checking order, that does
/// not hold.
pub open spec fn socket_refusal(d: BuildingDefinition, e: BuildingError) -> bool {
    if !field_ok("entrance_sockets"@, d.entrance_sockets@, d.footprint_cells) {
        field_refusal("entrance_sockets"@, d.entrance_sockets@, d.footprint_cells, e)
    } else if !field_ok("road_sockets"@, d.road_sockets@, d.footprint_cells) {
        field_refusal("road_sockets"@, d.road_sockets@, d.footprint_cells, e)
    } else if !field_ok("actor_sockets"@, d.actor_sockets@, d.footprint_cells) {
        field_refusal("actor_sockets"@, d.actor_sockets@, d.footprint_cells, e)
    } else {
        field_refusal("delivery_sockets"@, d.delivery_sockets@, d.footprint_cells, e)
    }
}

pub open spec fn sockets_ok(d: BuildingDefinition) -> bool {
    &&& field_ok("entrance_sockets"@, d.entrance_sockets@, d.footprint_cells)
    &&& field_ok("road_sockets"@, d.road_sockets@, d.footprint_cells)
    &&& field_ok("actor_sockets"@, d.actor_sockets@, d.footprint_cells)
    &&& field_ok("delivery_sockets"@, d.delivery_sockets@, d.footprint_cells)
}

/// The tier numbers, in authored order.
pub open spec fn tier_numbers(d: BuildingDefinition) -> Seq<u32> {
    d.tier_states@.map_values(|t: TierState| t.tier)
}

/// Tiers are authored 1, 2, 3, ... with no gaps, no repeats, and no more of
/// them than the cap.
pub open spec fn tiers_ok(d: BuildingDefinition) -> bool {
    &&& 0 < d.tier_states@.len() <= TIER_CAP
    &&& forall|i: int| 0 <= i < d.tier_states@.len() ==> (#[trigger] d.tier_states@[i]).tier == FIRST_TIER + i
}

/// The highest tier a record authors, or the first tier if it authors none.
pub open spec fn top_tier_of(d: BuildingDefinition) -> u32 {
    if d.tier_states@.len() == 0 {
        FIRST_TIER
    } else {
        d.tier_states@.last().tier
    }
}

/// Whether a rule makes a person.
pub open spec fn is_human_role(rule: ProductionRule) -> bool {
    rule.output is HumanRole
}

/// Every production rule is reachable, and a human-role rule is recruitment
/// support only: never for Michael's faction, never on a timer, and never
/// without the support described.
pub open spec fn production_ok(d: BuildingDefinition) -> bool {
    forall|i: int| 0 <= i < d.production@.len() ==> rule_ok(d, #[trigger] d.production@[i])
}

/// One production rule a record may carry: it starts at a tier the record
/// has, and a rule that makes a person is on a building Captain Michael's
/// faction may not raise, is not on a timer, and has recruitment support.
pub open spec fn rule_ok(d: BuildingDefinition, rule: ProductionRule) -> bool {
    &&& rule.minimum_tier <= top_tier_of(d)
    &&& is_human_role(rule) ==> {
        &&& !d.faction_compatibility@.contains(ConceptKey::Michael)
        &&& rule.interval_hours == 0
        &&& d.recruitment_support@ != Set::<Seq<char>>::empty()
    }
}

/// The refusal a record gets for a rule it may not carry, checked in this
/// order: the rule's tier, a person on a building Michael's faction may
/// raise, a person on a timer, a person without recruitment support.
pub open spec fn rule_refusal(d: BuildingDefinition, rule: ProductionRule, e: BuildingError) -> bool {
    if rule.minimum_tier > top_tier_of(d) {
        e matches BuildingError::ProductionAboveTopTier { id, rule_id, minimum_tier } && id@ == d.id@ && rule_id@ == rule.id@
            && minimum_tier == rule.minimum_tier
    } else if d.faction_compatibility@.contains(ConceptKey::Michael) {
        e matches BuildingError::MichaelBuildingProducesPeople { id, rule_id } && id@ == d.id@ && rule_id@ == rule.id@
    } else if rule.interval_hours != 0 {
        e matches BuildingError::TimerDrivenHumanRole { id, rule_id } && id@ == d.id@ && rule_id@ == rule.id@
    } else {
        e matches BuildingError::HumanRoleWithoutRecruitmentSupport { id, rule_id } && id@ == d.id@ && rule_id@ == rule.id@
    }
}

/// Whether an authored record may enter a registry.
pub open spec fn building_valid(d: BuildingDefinition) -> bool {
    &&& is_stable_id(d.id@)
    &&& seq_starts_with(d.id@, BUILDING_ID_PREFIX@)
    &&& sockets_ok(d)
    &&& tiers_ok(d)
    &&& production_ok(d)
    &&& d.capture_rules != CaptureRules::NeedsDecision
    &&& d.ruin_state != RuinState::NeedsDecision
}

/// What a whole building of this type takes out of a cell.
pub open spec fn envelope_of(d: BuildingDefinition) -> u32 {
    if d.footprint_cells as int + d.clearance_cells as int > u32::MAX as int {
        u32::MAX
    } else {
        (d.footprint_cells + d.clearance_cells) as u32
    }
}

/// What a wreck of this type still takes out of a cell.
pub open spec fn ruined_envelope_of(d: BuildingDefinition) -> u32 {
    match d.ruin_state {
        RuinState::LeavesRubble { footprint_cells } => footprint_cells,
        _ => 0,
    }
}

fn check_field(field: &'static str, sockets: &Vec<BuildingSocket>, footprint: u32) -> (r: Result<(), BuildingError>)
    ensures
        r is Ok <==> field_ok(field@, sockets@, footprint),
        r matches Err(e) ==> field_refusal(field@, sockets@, footprint, e),
{
    let mut i: usize = 0;
    while i < sockets.len()
        invariant
            i <= sockets@.len(),
            forall|j: int|
                0 <= j < i ==> field_name((#[trigger] sockets@[j]).kind) == field@ && sockets@[j].offset_cells
                    < footprint,
        decreases sockets@.len() - i,
    {
        let socket = &sockets[i];
        if !str_eq(socket.kind.field(), field) {
            proof {
                assert(sockets@[i as int] == *socket);
            }
            return Err(BuildingError::SocketInWrongField { socket_id: socket.id.clone(), kind: socket.kind, field });
        }
        if socket.offset_cells >= footprint {
            proof {
                assert(sockets@[i as int] == *socket);
            }
            return Err(
                BuildingError::SocketOutsideEnvelope {
                    socket_id: socket.id.clone(),
                    offset_cells: socket.offset_cells,
                    footprint_cells: footprint,
                },
            );
        }
        i = i + 1;
    }
    Ok(())
}

fn contains_concept(set: &Vec<ConceptKey>, c: ConceptKey) -> (r: bool)
    ensures
        r == set@.contains(c),
{
    let mut i: usize = 0;
    while i < set.len()
        invariant
            i <= set@.len(),
            forall|j: int| 0 <= j < i ==> set@[j] != c,
        decreases set@.len() - i,
    {
        if set[i] == c {
            return true;
        }
        i = i + 1;
    }
    false
}

/// What checking a record answers.
pub open spec fn building_checked(definition: BuildingDefinition, r: Result<(), BuildingError>) -> bool {
    &&& (r is Ok <==> building_valid(definition))
    &&& (!is_stable_id(definition.id@) ==> (r matches Err(BuildingError::MalformedId(e)) && invalid_id(
        e,
        "building.id",
        definition.id@,
    )))
    &&& (is_stable_id(definition.id@) && !seq_starts_with(definition.id@, BUILDING_ID_PREFIX@) ==> (r matches Err(
        BuildingError::WrongIdPrefix { found, expected },
    ) && found@ == definition.id@ && expected == BUILDING_ID_PREFIX))
    &&& (is_stable_id(definition.id@) && seq_starts_with(definition.id@, BUILDING_ID_PREFIX@) && !sockets_ok(definition) ==> (
    r matches Err(e) && socket_refusal(definition, e)))
    &&& (is_stable_id(definition.id@) && seq_starts_with(definition.id@, BUILDING_ID_PREFIX@) && sockets_ok(definition)
        && !tiers_ok(definition) ==> (r matches Err(BuildingError::MalformedTiers { id, found }) && id@
        == definition.id@ && found@ == tier_numbers(definition)))
    &&& (is_stable_id(definition.id@) && seq_starts_with(definition.id@, BUILDING_ID_PREFIX@) && sockets_ok(definition)
        && tiers_ok(definition) && !production_ok(definition) ==> (r matches Err(e) && exists|i: int|
        0 <= i < definition.production@.len() && !rule_ok(definition, #[trigger] definition.production@[i]) && (forall|j: int|
            0 <= j < i ==> rule_ok(definition, #[trigger] definition.production@[j])) && rule_refusal(definition, definition.production@[i], e)))
    &&& (is_stable_id(definition.id@) && seq_starts_with(definition.id@, BUILDING_ID_PREFIX@) && sockets_ok(definition)
        && tiers_ok(definition) && production_ok(definition) && definition.capture_rules == CaptureRules::NeedsDecision
        ==> (r matches Err(BuildingError::NeedsDecision { id, field }) && id@ == definition.id@ && field@
        == "capture_rules (brief section 20: capture versus destruction rules by building type)"@))
    &&& (is_stable_id(definition.id@) && seq_starts_with(definition.id@, BUILDING_ID_PREFIX@) && sockets_ok(definition)
        && tiers_ok(definition) && production_ok(definition) && definition.capture_rules != CaptureRules::NeedsDecision
        && definition.ruin_state == RuinState::NeedsDecision ==> (r matches Err(BuildingError::NeedsDecision { id, field }) && id@
        == definition.id@ && field@ == "ruin_state (brief section 20: capture versus destruction rules by building type)"@))
}

impl BuildingDefinition {
    /// Every rule an authored record must satisfy before it may enter a
    /// registry, checked in this order: the ID, the sockets, the tiers, the
    /// production rules, then the two Open decisions. Refuses; never repairs.
    pub fn validate(&self) -> (r: Result<(), BuildingError>)
        ensures
            building_checked(*self, r),
    {
        match require_stable_id("building.id", self.id.as_str()) {
            Err(e) => return Err(BuildingError::MalformedId(e)),
            Ok(()) => {},
        }
        if !starts_with(self.id.as_str(), BUILDING_ID_PREFIX) {
            return Err(BuildingError::WrongIdPrefix { found: self.id.clone(), expected: BUILDING_ID_PREFIX });
        }
        match check_field("entrance_sockets", &self.entrance_sockets, self.footprint_cells) {
            Err(e) => return Err(e),
            Ok(()) => {},
        }
        match check_field("road_sockets", &self.road_sockets, self.footprint_cells) {
            Err(e) => return Err(e),
            Ok(()) => {},
        }
        match check_field("actor_sockets", &self.actor_sockets, self.footprint_cells) {
            Err(e) => return Err(e),
            Ok(()) => {},
        }
        match check_field("delivery_sockets", &self.delivery_sockets, self.footprint_cells) {
            Err(e) => return Err(e),
            Ok(()) => {},
        }

        let mut tiers: Vec<u32> = Vec::new();
        let mut ordered = true;
        let mut i: usize = 0;
        while i < self.tier_states.len()
            invariant
                i <= self.tier_states@.len(),
                tiers@ == tier_numbers(*self).take(i as int),
                ordered == forall|j: int| 0 <= j < i ==> (#[trigger] self.tier_states@[j]).tier == FIRST_TIER + j,
            decreases self.tier_states@.len() - i,
        {
            let t = self.tier_states[i].tier;
            if t as u64 != (i as u64) + 1 {
                ordered = false;
            }
            tiers.push(t);
            proof {
                assert(tier_numbers(*self).take(i + 1) =~= tier_numbers(*self).take(i as int).push(t));
            }
            i = i + 1;
        }
        proof {
            assert(tier_numbers(*self).take(self.tier_states@.len() as int) =~= tier_numbers(*self));
        }
        if self.tier_states.len() == 0 || !ordered || self.tier_states.len() as u64 > TIER_CAP as u64 {
            return Err(BuildingError::MalformedTiers { id: self.id.clone(), found: tiers });
        }

        let top = self.top_tier();
        let michaels = contains_concept(&self.faction_compatibility, ConceptKey::Michael);
        let supported = !self.recruitment_support.is_empty();
        let mut k: usize = 0;
        while k < self.production.len()
            invariant
                k <= self.production@.len(),
                top == top_tier_of(*self),
                is_stable_id(self.id@),
                seq_starts_with(self.id@, BUILDING_ID_PREFIX@),
                sockets_ok(*self),
                tiers_ok(*self),
                michaels == self.faction_compatibility@.contains(ConceptKey::Michael),
                supported == (self.recruitment_support@ != Set::<Seq<char>>::empty()),
                forall|j: int| 0 <= j < k ==> rule_ok(*self, #[trigger] self.production@[j]),
            decreases self.production@.len() - k,
        {
            let rule = &self.production[k];
            if rule.minimum_tier > top {
                return Err(
                    BuildingError::ProductionAboveTopTier {
                        id: self.id.clone(),
                        rule_id: rule.id.clone(),
                        minimum_tier: rule.minimum_tier,
                    },
                );
            }
            match &rule.output {
                ProductionOutput::HumanRole { .. } => {
                    if michaels {
                        return Err(BuildingError::MichaelBuildingProducesPeople { id: self.id.clone(), rule_id: rule.id.clone() });
                    }
                    if rule.interval_hours != 0 {
                        return Err(BuildingError::TimerDrivenHumanRole { id: self.id.clone(), rule_id: rule.id.clone() });
                    }
                    if !supported {
                        return Err(
                            BuildingError::HumanRoleWithoutRecruitmentSupport {
                                id: self.id.clone(),
                                rule_id: rule.id.clone(),
                            },
                        );
                    }
                },
                _ => {},
            }
            k = k + 1;
        }
        match self.capture_rules {
            CaptureRules::NeedsDecision => {
                return Err(
                    BuildingError::NeedsDecision {
                        id: self.id.clone(),
                        field: "capture_rules (brief section 20: capture versus destruction rules by building type)",
                    },
                );
            },
            _ => {},
        }
        match self.ruin_state {
            RuinState::NeedsDecision => {
                return Err(
                    BuildingError::NeedsDecision {
                        id: self.id.clone(),
                        field: "ruin_state (brief section 20: capture versus destruction rules by building type)",
                    },
                );
            },
            _ => {},
        }
        Ok(())
    }

    /// The highest tier this record authors, which may be below the cap.
    pub fn top_tier(&self) -> (r: u32)
        ensures
            r == top_tier_of(*self),
    {
        if self.tier_states.len() == 0 {
            FIRST_TIER
        } else {
            self.tier_states[self.tier_states.len() - 1].tier
        }
    }

    /// The authored tier, or `None` for a tier this record does not carry.
    pub fn tier(&self, tier: u32) -> (r: Option<&TierState>)
        ensures
            match r {
                Some(t) => t.tier == tier && exists|i: int|
                    0 <= i < self.tier_states@.len() && self.tier_states@[i] == *t && forall|j: int|
                        0 <= j < i ==> (#[trigger] self.tier_states@[j]).tier != tier,
                None => forall|i: int| 0 <= i < self.tier_states@.len() ==> (#[trigger] self.tier_states@[i]).tier != tier,
            },
    {
        let mut i: usize = 0;
        while i < self.tier_states.len()
            invariant
                i <= self.tier_states@.len(),
                forall|j: int| 0 <= j < i ==> (#[trigger] self.tier_states@[j]).tier != tier,
            decreases self.tier_states@.len() - i,
        {
            if self.tier_states[i].tier == tier {
                return Some(&self.tier_states[i]);
            }
            i = i + 1;
        }
        None
    }

    /// What one whole building of this type takes out of a cell's capacity:
    /// footprint plus clearance.
    pub fn envelope_cells(&self) -> (r: u32)
        ensures
            r == envelope_of(*self),
    {
        self.footprint_cells.saturating_add(self.clearance_cells)
    }

    /// What a wreck of this type still takes out of a cell's capacity.
    pub fn ruined_envelope_cells(&self) -> (r: u32)
        ensures
            r == ruined_envelope_of(*self),
    {
        match self.ruin_state {
            RuinState::LeavesRubble { footprint_cells } => footprint_cells,
            RuinState::ClearsCompletely => 0,
            RuinState::NeedsDecision => 0,
        }
    }

    /// Whether a faction of this concept may raise this building.
    pub fn compatible_with(&self, concept: ConceptKey) -> (r: bool)
        ensures
            r == self.faction_compatibility@.contains(concept),
    {
        contains_concept(&self.faction_compatibility, concept)
    }
}

/// The loaded building records, keyed by ID. Insertion validates, so an
/// invalid record cannot be in a registry at all.
#[derive(Clone, Debug, Default, PartialEq, Eq)]
pub struct BuildingDefinitions {
    by_id: StrMap<BuildingDefinition>,
}

impl BuildingDefinitions {
    /// The records, by ID.
    pub closed spec fn records(&self) -> Map<Seq<char>, BuildingDefinition> {
        self.by_id.contents()
    }

    /// The entries in ascending ID order.
    pub closed spec fn order(&self) -> Seq<(Seq<char>, BuildingDefinition)> {
        self.by_id@
    }

    /// The registry's walk holds its records and nothing else: every entry
    /// is a record under its key, every record has an entry, and, the keys
    /// ascending, no key comes twice.
    pub proof fn lemma_order_records(&self)
        requires
            crate::keyed::ascending(crate::keyed::keys_of(self.order())),
        ensures
            crate::keyed::keys_of(self.order()).no_duplicates(),
            forall|i: int|
                #![trigger self.order()[i]]
                0 <= i < self.order().len() ==> self.records().contains_key(self.order()[i].0) && self.records()[self.order()[i].0]
                    == self.order()[i].1,
            forall|k: Seq<char>| self.records().contains_key(k) ==> crate::keyed::keys_of(self.order()).contains(k),
    {
        crate::keyed::lemma_ascending_unique(crate::keyed::keys_of(self.order()));
        crate::keyed::lemma_entries_map(self.by_id@);
    }

    pub fn new() -> (r: Self)
        ensures
            r.records() == Map::<Seq<char>, BuildingDefinition>::empty(),
            r.order().len() == 0,
            crate::keyed::ascending(crate::keyed::keys_of(r.order())),
    {
        BuildingDefinitions { by_id: StrMap::new() }
    }

    /// Validates, refuses a duplicate, then stores.
    pub fn insert(&mut self, definition: BuildingDefinition) -> (r: Result<(), BuildingError>)
        ensures
            !building_valid(definition) ==> building_checked(definition, r),
            r is Ok ==> final(self).order().len() == old(self).order().len() + 1,
            crate::keyed::ascending(crate::keyed::keys_of(old(self).order())) ==> crate::keyed::ascending(crate::keyed::keys_of(final(self).order())),
            r is Ok <==> building_valid(definition) && !old(self).records().contains_key(definition.id@),
            r is Ok ==> final(self).records() == old(self).records().insert(definition.id@, definition),
            r is Err ==> *final(self) == *old(self),
            building_valid(definition) && old(self).records().contains_key(definition.id@) ==> (r matches Err(
                BuildingError::Duplicate { id },
            ) && id@ == definition.id@),
    {
        match definition.validate() {
            Err(e) => return Err(e),
            Ok(()) => {},
        }
        if self.by_id.contains_key(definition.id.as_str()) {
            return Err(BuildingError::Duplicate { id: definition.id.clone() });
        }
        let key = definition.id.clone();
        self.by_id.insert(key, definition);
        Ok(())
    }

    pub fn get(&self, id: &str) -> (r: Option<&BuildingDefinition>)
        ensures
            match r {
                Some(d) => self.records().contains_key(id@) && *d == self.records()[id@],
                None => !self.records().contains_key(id@),
            },
    {
        self.by_id.get(id)
    }

    pub fn require(&self, id: &str) -> (r: Result<&BuildingDefinition, BuildingError>)
        ensures
            match r {
                Ok(d) => self.records().contains_key(id@) && *d == self.records()[id@],
                Err(e) => !self.records().contains_key(id@) && (e matches BuildingError::UnknownDefinition { id: x }
                    && x@ == id@),
            },
    {
        match self.by_id.get(id) {
            Some(d) => Ok(d),
            None => Err(BuildingError::UnknownDefinition { id: id.to_owned() }),
        }
    }

    /// Every ID, ascending.
    pub fn ids(&self) -> (r: Vec<String>)
        ensures
            r@.len() == self.order().len(),
            forall|i: int| 0 <= i < r@.len() ==> #[trigger] r@[i]@ == self.order()[i].0,
            forall|i: int| 0 <= i < r@.len() ==> self.records().contains_key(#[trigger] self.order()[i].0),
    {
        proof {
            assert forall|i: int| 0 <= i < self.order().len() implies self.records().contains_key(#[trigger] self.order()[i].0) by {
                lemma_as_map_dom(self.by_id@, self.order()[i].0);
            }
        }
        self.by_id.keys()
    }

    /// The record at position `i` of the ascending walk.
    pub fn at(&self, i: usize) -> (r: &BuildingDefinition)
        requires
            i < self.order().len(),
        ensures
            *r == self.order()[i as int].1,
    {
        self.by_id.value_at(i)
    }

    pub fn len(&self) -> (n: usize)
        ensures
            n == self.order().len(),
    {
        self.by_id.len()
    }

    pub fn is_empty(&self) -> (r: bool)
        ensures
            r == (self.order().len() == 0),
    {
        self.by_id.is_empty()
    }
}

/// Where a placed building is in its life.
#[derive(Clone, Copy, Debug, PartialEq, Eq, PartialOrd, Ord, Structural)]
pub enum BuildingState {
    UnderConstruction,
    Operational,
    Damaged,
    /// Terminal: nothing repairs a ruin.
    Ruined,
    Captured,
}

impl Default for BuildingState {
    fn default() -> (r: Self)
        ensures
            r == BuildingState::UnderConstruction,
    {
        BuildingState::UnderConstruction
    }
}

/// One building standing on the board.
#[derive(Clone, Debug, Default, PartialEq, Eq)]
pub struct BuildingInstance {
    pub id: String,
    pub def_id: String,
    pub cell_id: String,
    pub faction_id: String,
    pub tier: u32,
    pub hp: u32,
    pub state: BuildingState,
    /// Hours of work left on the tier being built. Zero everywhere except
    /// `UnderConstruction`.
    pub construction_hours_remaining: u32,
    /// The reward budget a dungeon raid draws down.
    pub stored_value: u32,
    /// How many machines this building has turned out, ever.
    pub machines_produced: u32,
    /// Hours still to run on each timer-driven production rule, by rule
    /// position; a rule with no entry reads as its full interval.
    pub production_countdown: Vec<(usize, u32)>,
}

/// Whether a building in this state works: offers sockets, services, or
/// production.
pub open spec fn working(s: BuildingState) -> bool {
    s == BuildingState::Operational || s == BuildingState::Captured
}

impl BuildingInstance {
    /// Whether this building is standing well enough to work.
    pub fn is_working(&self) -> (r: bool)
        ensures
            r == working(self.state),
    {
        match self.state {
            BuildingState::Operational => true,
            BuildingState::Captured => true,
            _ => false,
        }
    }
}

/// `a + b`, saturating at the top of `u32`.
pub open spec fn sat_add(a: u32, b: u32) -> u32 {
    if a as int + b as int > u32::MAX as int {
        u32::MAX
    } else {
        (a + b) as u32
    }
}

/// What one standing building takes out of its cell.
pub open spec fn building_use(d: BuildingDefinition, b: BuildingInstance) -> u32 {
    if b.state == BuildingState::Ruined {
        ruined_envelope_of(d)
    } else {
        envelope_of(d)
    }
}

/// How much of a cell's capacity the buildings standing on it take: whole
/// buildings their envelope, wrecks their rubble, and a building whose record
/// the registry does not carry nothing.
pub open spec fn cell_use(
    bs: Seq<(Seq<char>, BuildingInstance)>,
    defs: Map<Seq<char>, BuildingDefinition>,
    cell: Seq<char>,
) -> u32
    decreases bs.len(),
{
    if bs.len() == 0 {
        0
    } else {
        let rest = cell_use(bs.drop_last(), defs, cell);
        let b = bs.last().1;
        if b.cell_id@ == cell && defs.contains_key(b.def_id@) {
            sat_add(rest, building_use(defs[b.def_id@], b))
        } else {
            rest
        }
    }
}

/// Some concept whose ID this is may raise this building.
pub open spec fn compatible(d: BuildingDefinition, faction_id: Seq<char>) -> bool {
    exists|c: ConceptKey| #[trigger] c.id() == faction_id && d.faction_compatibility@.contains(c)
}

/// `t` is the first authored tier state numbered `tier`.
pub open spec fn first_tier_state(d: BuildingDefinition, tier: u32, t: TierState) -> bool {
    exists|i: int|
        0 <= i < d.tier_states@.len() && d.tier_states@[i] == t && t.tier == tier && forall|j: int|
            0 <= j < i ==> (#[trigger] d.tier_states@[j]).tier != tier
}

/// Only one tier state is the first to carry a tier number.
pub proof fn lemma_first_tier_state_unique(d: BuildingDefinition, tier: u32, a: TierState, b: TierState)
    requires
        first_tier_state(d, tier, a),
        first_tier_state(d, tier, b),
    ensures
        a == b,
{
    let i = choose|i: int|
        0 <= i < d.tier_states@.len() && d.tier_states@[i] == a && a.tier == tier && forall|j: int|
            0 <= j < i ==> (#[trigger] d.tier_states@[j]).tier != tier;
    let k = choose|k: int|
        0 <= k < d.tier_states@.len() && d.tier_states@[k] == b && b.tier == tier && forall|j: int|
            0 <= j < k ==> (#[trigger] d.tier_states@[j]).tier != tier;
    if i < k {
        assert(d.tier_states@[i].tier != tier);
    } else if k < i {
        assert(d.tier_states@[k].tier != tier);
    }
}

/// Some authored tier state carries this number.
pub open spec fn authors_tier(d: BuildingDefinition, tier: u32) -> bool {
    exists|i: int| 0 <= i < d.tier_states@.len() && (#[trigger] d.tier_states@[i]).tier == tier
}

/// A freshly placed building at the first tier.
pub open spec fn placed_instance(
    b: BuildingInstance,
    id: Seq<char>,
    def_id: Seq<char>,
    cell: Seq<char>,
    faction: Seq<char>,
    t: TierState,
) -> bool {
    &&& b.id@ == id
    &&& b.def_id@ == def_id
    &&& b.cell_id@ == cell
    &&& b.faction_id@ == faction
    &&& b.tier == FIRST_TIER
    &&& b.hp == t.hit_points
    &&& b.state == (if t.construction_hours == 0 { BuildingState::Operational } else { BuildingState::UnderConstruction })
    &&& b.construction_hours_remaining == t.construction_hours
    &&& b.stored_value == 0
    &&& b.machines_produced == 0
    &&& b.production_countdown@.len() == 0
}

/// Every check a placement makes passes: the instance ID is new and shaped
/// as one, the faction ID is a stable ID, the cell is the graph's and the
/// faction holds it, the record is loaded, lists the faction's concept and
/// authors a first tier, and its envelope fits in what is left of the cell.
pub open spec fn placement_allowed(
    s: ExpeditionState,
    instance_id: Seq<char>,
    def_id: Seq<char>,
    cell_id: Seq<char>,
    faction_id: Seq<char>,
    geography: Geography,
    defs: Map<Seq<char>, BuildingDefinition>,
) -> bool {
    let d = defs[def_id];
    &&& is_stable_id(instance_id)
    &&& seq_starts_with(instance_id, BUILDING_INSTANCE_ID_PREFIX@)
    &&& is_stable_id(faction_id)
    &&& !s.buildings.contents().contains_key(instance_id)
    &&& has_location(geography, cell_id)
    &&& defs.contains_key(def_id)
    &&& holder(geography, s.ownership.contents(), cell_id) == Some(faction_id)
    &&& compatible(d, faction_id)
    &&& cell_use(s.buildings@, defs, cell_id) as int + envelope_of(d) as int <= CELL_CAPACITY_CELLS
    &&& authors_tier(d, FIRST_TIER)
}

/// What a placement does to the buildings: one entry more, under the new
/// instance ID, a fresh instance of the record's first tier standing on the
/// cell for the faction; every other building as it was.
pub open spec fn placed(
    before: Map<Seq<char>, BuildingInstance>,
    after: Map<Seq<char>, BuildingInstance>,
    instance_id: Seq<char>,
    def_id: Seq<char>,
    cell_id: Seq<char>,
    faction_id: Seq<char>,
    d: BuildingDefinition,
) -> bool {
    &&& after.dom() == before.dom().insert(instance_id)
    &&& forall|k: Seq<char>| k != instance_id && #[trigger] before.contains_key(k) ==> after[k] == before[k]
    &&& exists|t: TierState| first_tier_state(d, FIRST_TIER, t) && placed_instance(after[instance_id], instance_id, def_id, cell_id, faction_id, t)
}

/// A building after `hours` of work, if it was under construction.
pub open spec fn constructed(b: BuildingInstance, hours: u32) -> BuildingInstance {
    if b.state == BuildingState::UnderConstruction {
        let left = if b.construction_hours_remaining > hours { (b.construction_hours_remaining - hours) as u32 } else { 0u32 };
        BuildingInstance {
            construction_hours_remaining: left,
            state: if left == 0 { BuildingState::Operational } else { BuildingState::UnderConstruction },
            ..b
        }
    } else {
        b
    }
}

/// The IDs of the buildings `hours` of work finishes, in order.
pub open spec fn finished_by(bs: Seq<(Seq<char>, BuildingInstance)>, hours: u32) -> Seq<Seq<char>>
    decreases bs.len(),
{
    if bs.len() == 0 {
        Seq::empty()
    } else {
        let rest = finished_by(bs.drop_last(), hours);
        let b = bs.last().1;
        if b.state == BuildingState::UnderConstruction && b.construction_hours_remaining <= hours {
            rest.push(b.id@)
        } else {
            rest
        }
    }
}

/// The buildings standing on one cell, in order.
pub open spec fn on_cell(bs: Seq<(Seq<char>, BuildingInstance)>, cell: Seq<char>) -> Seq<BuildingInstance>
    decreases bs.len(),
{
    if bs.len() == 0 {
        Seq::empty()
    } else {
        let rest = on_cell(bs.drop_last(), cell);
        if bs.last().1.cell_id@ == cell {
            rest.push(bs.last().1)
        } else {
            rest
        }
    }
}

/// The actor sockets a cell offers: for every working building on it whose
/// record the registry carries, that record's actor sockets, in order.
pub open spec fn sockets_on(
    bs: Seq<(Seq<char>, BuildingInstance)>,
    defs: Map<Seq<char>, BuildingDefinition>,
    cell: Seq<char>,
) -> Seq<(String, BuildingSocket)>
    decreases bs.len(),
{
    if bs.len() == 0 {
        Seq::empty()
    } else {
        let rest = sockets_on(bs.drop_last(), defs, cell);
        let b = bs.last().1;
        if b.cell_id@ == cell && working(b.state) && defs.contains_key(b.def_id@) {
            rest + defs[b.def_id@].actor_sockets@.map_values(|s: BuildingSocket| (b.id, s))
        } else {
            rest
        }
    }
}

/// A stable ID in a required namespace.
fn require_prefixed_id(field: &'static str, value: &str, prefix: &'static str) -> (r: Result<(), BuildingError>)
    ensures
        r is Ok <==> is_stable_id(value@) && seq_starts_with(value@, prefix@),
        !is_stable_id(value@) ==> (r matches Err(BuildingError::MalformedId(e)) && invalid_id(e, field, value@)),
        is_stable_id(value@) && !seq_starts_with(value@, prefix@) ==> (r matches Err(
            BuildingError::WrongIdPrefix { found, expected },
        ) && found@ == value@ && expected == prefix),
{
    match require_stable_id(field, value) {
        Err(e) => return Err(BuildingError::MalformedId(e)),
        Ok(()) => {},
    }
    if starts_with(value, prefix) {
        Ok(())
    } else {
        Err(BuildingError::WrongIdPrefix { found: owned(value), expected: prefix })
    }
}

/// Whether a faction ID names a concept this record lists.
fn faction_compatible(definition: &BuildingDefinition, faction_id: &str) -> (r: bool)
    ensures
        r == compatible(*definition, faction_id@),
{
    match strip_prefix(faction_id, FACTION_ID_PREFIX) {
        None => {
            assert forall|c: ConceptKey| #[trigger] c.id() == faction_id@ implies !definition.faction_compatibility@.contains(c) by {
                assert(faction_id@.subrange(0, FACTION_ID_PREFIX@.len() as int) =~= FACTION_ID_PREFIX@);
            }
            false
        },
        Some(rest) => {
            match ConceptKey::from_key(rest.as_str()) {
                None => {
                    assert forall|c: ConceptKey| #[trigger] c.id() == faction_id@ implies !definition.faction_compatibility@.contains(c) by {
                        assert(c.key() =~= faction_id@.skip(FACTION_ID_PREFIX@.len() as int));
                    }
                    false
                },
                Some(concept) => {
                    assert(concept.id() =~= faction_id@);
                    let ok = definition.compatible_with(concept);
                    proof {
                        assert forall|c: ConceptKey| #[trigger] c.id() == faction_id@ implies c == concept by {
                            crate::faction::lemma_concept_keys_distinct(c, concept);
                        }
                    }
                    ok
                },
            }
        },
    }
}

impl ExpeditionState {
    /// The building with this instance ID.
    fn require_building(&self, instance_id: &str) -> (r: Result<&BuildingInstance, BuildingError>)
        ensures
            match r {
                Ok(b) => self.buildings.contents().contains_key(instance_id@) && *b == self.buildings.contents()[instance_id@],
                Err(e) => !self.buildings.contents().contains_key(instance_id@) && (e matches BuildingError::UnknownBuilding {
                    id,
                } && id@ == instance_id@),
            },
    {
        match self.buildings.get(instance_id) {
            Some(b) => Ok(b),
            None => Err(BuildingError::UnknownBuilding { id: owned(instance_id) }),
        }
    }

    /// How much of `cell_id`'s capacity is already spoken for.
    pub fn envelope_cells_used(&self, cell_id: &str, definitions: &BuildingDefinitions) -> (r: u32)
        ensures
            r == cell_use(self.buildings@, definitions.records(), cell_id@),
    {
        let ghost bs = self.buildings@;
        let mut total: u32 = 0;
        let mut i: usize = 0;
        while i < self.buildings.len()
            invariant
                i <= bs.len(),
                bs == self.buildings@,
                total == cell_use(bs.take(i as int), definitions.records(), cell_id@),
            decreases bs.len() - i,
        {
            proof {
                assert(bs.take(i + 1).drop_last() =~= bs.take(i as int));
            }
            let b = self.buildings.value_at(i);
            if str_eq(b.cell_id.as_str(), cell_id) {
                match definitions.get(b.def_id.as_str()) {
                    Some(d) => {
                        let used = match b.state {
                            BuildingState::Ruined => d.ruined_envelope_cells(),
                            _ => d.envelope_cells(),
                        };
                        total = total.saturating_add(used);
                    },
                    None => {},
                }
            }
            i = i + 1;
        }
        proof {
            assert(bs.take(bs.len() as int) =~= bs);
        }
        total
    }

    /// Raise a building on a cell: the one way `buildings` gains an entry.
    ///
    /// Refuses, before changing anything and in this order: a malformed or
    /// wrongly-prefixed instance ID, a malformed faction ID, an instance ID
    /// already carried, a cell the graph does not know, a definition the
    /// registry does not carry, a faction that does not hold the cell, a
    /// definition that does not list the faction's concept, an envelope that
    /// does not fit in what is left of the cell, and a record with no first
    /// tier. The new building starts at the first tier with that tier's hit
    /// points and hours, finished at once if the hours are zero.
    pub fn place_building(
        &mut self,
        instance_id: &str,
        def_id: &str,
        cell_id: &str,
        faction_id: &str,
        geography: &Geography,
        definitions: &BuildingDefinitions,
    ) -> (r: Result<(), BuildingError>)
        ensures
            r is Err ==> *final(self) == *old(self),
            ({
                let defs = definitions.records();
                let d = defs[def_id@];
                let used = cell_use(old(self).buildings@, defs, cell_id@);
                &&& r is Ok <==> placement_allowed(*old(self), instance_id@, def_id@, cell_id@, faction_id@, *geography, defs)
                &&& r is Ok ==> {
                    &&& placed(old(self).buildings.contents(), final(self).buildings.contents(), instance_id@, def_id@, cell_id@, faction_id@, d)
                    &&& *final(self) == (ExpeditionState { buildings: final(self).buildings, ..*old(self) })
                }
                &&& is_stable_id(instance_id@) && seq_starts_with(instance_id@, BUILDING_INSTANCE_ID_PREFIX@)
                    && is_stable_id(faction_id@) && !old(self).buildings.contents().contains_key(instance_id@)
                    && has_location(*geography, cell_id@) && defs.contains_key(def_id@)
                    && holder(*geography, old(self).ownership.contents(), cell_id@) != Some(faction_id@) ==> (r matches Err(
                    BuildingError::CellNotHeld { cell_id: c, faction_id: f, held_by },
                ) && c@ == cell_id@ && f@ == faction_id@ && match held_by {
                    Some(h) => holder(*geography, old(self).ownership.contents(), cell_id@) == Some(h@),
                    None => holder(*geography, old(self).ownership.contents(), cell_id@) is None,
                })
                &&& is_stable_id(instance_id@) && seq_starts_with(instance_id@, BUILDING_INSTANCE_ID_PREFIX@)
                    && is_stable_id(faction_id@) && !old(self).buildings.contents().contains_key(instance_id@)
                    && has_location(*geography, cell_id@) && defs.contains_key(def_id@)
                    && holder(*geography, old(self).ownership.contents(), cell_id@) == Some(faction_id@)
                    && compatible(d, faction_id@) && used as int + envelope_of(d) as int > CELL_CAPACITY_CELLS ==> (
                r matches Err(BuildingError::EnvelopeOverlap { cell_id: c, occupied, requested, capacity }) && c@
                    == cell_id@ && occupied == used && requested == envelope_of(d) && capacity == CELL_CAPACITY_CELLS)
            }),
    {
        match require_prefixed_id("building.instance_id", instance_id, BUILDING_INSTANCE_ID_PREFIX) {
            Err(e) => return Err(e),
            Ok(()) => {},
        }
        match require_stable_id("faction_id", faction_id) {
            Err(e) => return Err(BuildingError::MalformedId(e)),
            Ok(()) => {},
        }
        if self.buildings.contains_key(instance_id) {
            return Err(BuildingError::Duplicate { id: owned(instance_id) });
        }
        if geography.location(cell_id).is_none() {
            return Err(BuildingError::UnknownCell { cell_id: owned(cell_id) });
        }
        let definition = match definitions.require(def_id) {
            Err(e) => return Err(e),
            Ok(d) => d,
        };
        let held_by = geography.held_by(cell_id, &self.ownership);
        let holds = match &held_by {
            Some(h) => str_eq(h.as_str(), faction_id),
            None => false,
        };
        if !holds {
            return Err(BuildingError::CellNotHeld { cell_id: owned(cell_id), faction_id: owned(faction_id), held_by });
        }
        if !faction_compatible(definition, faction_id) {
            return Err(BuildingError::IncompatibleFaction { id: owned(def_id), faction_id: owned(faction_id) });
        }
        let occupied = self.envelope_cells_used(cell_id, definitions);
        let requested = definition.envelope_cells();
        if occupied as u64 + requested as u64 > CELL_CAPACITY_CELLS as u64 {
            return Err(BuildingError::EnvelopeOverlap {
                cell_id: owned(cell_id),
                occupied,
                requested,
                capacity: CELL_CAPACITY_CELLS,
            });
        }
        let first = match definition.tier(FIRST_TIER) {
            Some(t) => t,
            None => return Err(BuildingError::MalformedTiers { id: owned(def_id), found: Vec::new() }),
        };
        let hours = first.construction_hours;
        let instance = BuildingInstance {
            id: owned(instance_id),
            def_id: owned(def_id),
            cell_id: owned(cell_id),
            faction_id: owned(faction_id),
            tier: FIRST_TIER,
            hp: first.hit_points,
            state: if hours == 0 { BuildingState::Operational } else { BuildingState::UnderConstruction },
            construction_hours_remaining: hours,
            stored_value: 0,
            machines_produced: 0,
            production_countdown: Vec::new(),
        };
        let ghost placed = instance;
        let ghost t = *first;
        self.buildings.insert(owned(instance_id), instance);
        proof {
            assert(first_tier_state(definitions.records()[def_id@], FIRST_TIER, t));
            assert(final(self).buildings.contents().dom() =~= old(self).buildings.contents().dom().insert(instance_id@));
        }
        Ok(())
    }

    /// Put `hours` of work into every building under construction, and return
    /// the IDs of the ones that finished, in order. Nothing calls this on a
    /// clock.
    pub fn advance_construction(&mut self, hours: u32) -> (r: Vec<String>)
        ensures
            final(self).buildings@.len() == old(self).buildings@.len(),
            forall|i: int|
                0 <= i < old(self).buildings@.len() ==> #[trigger] final(self).buildings@[i] == (
                old(self).buildings@[i].0,
                constructed(old(self).buildings@[i].1, hours),
            ),
            r@.map_values(|s: String| s@) == finished_by(old(self).buildings@, hours),
            *final(self) == (ExpeditionState { buildings: final(self).buildings, ..*old(self) }),
    {
        let ghost start = self.buildings@;
        let mut finished: Vec<String> = Vec::new();
        let mut i: usize = 0;
        while i < self.buildings.len()
            invariant
                i <= start.len(),
                self.buildings@.len() == start.len(),
                forall|j: int| 0 <= j < i ==> #[trigger] self.buildings@[j] == (start[j].0, constructed(start[j].1, hours)),
                forall|j: int| i <= j < start.len() ==> #[trigger] self.buildings@[j] == start[j],
                finished@.map_values(|s: String| s@) == finished_by(start.take(i as int), hours),
                *self == (ExpeditionState { buildings: self.buildings, ..*old(self) }),
            decreases start.len() - i,
        {
            proof {
                assert(start.take(i + 1).drop_last() =~= start.take(i as int));
            }
            let ghost before = self.buildings@;
            let b = self.buildings.value_at_mut(i);
            if b.state == BuildingState::UnderConstruction {
                b.construction_hours_remaining = b.construction_hours_remaining.saturating_sub(hours);
                if b.construction_hours_remaining == 0 {
                    b.state = BuildingState::Operational;
                    finished.push(b.id.clone());
                }
            }
            proof {
                assert(self.buildings@ =~= before.update(i as int, (start[i as int].0, constructed(start[i as int].1, hours))));
                assert(finished@.map_values(|s: String| s@) =~= finished_by(start.take(i + 1), hours));
            }
            i = i + 1;
        }
        proof {
            assert(start.take(start.len() as int) =~= start);
        }
        finished
    }

    /// Move one building one tier up, and return the tier it is now
    /// building. Refuses, in this order: an unknown building, one that is not
    /// working, a definition the registry does not carry, a building at the
    /// cap or at its record's top tier, and a next tier whose requirements are
    /// not all met. An upgrade is construction: the building goes back under
    /// construction for the new tier's hours, finished at once if there are
    /// none.
    pub fn upgrade_building(
        &mut self,
        instance_id: &str,
        met_requirements: &StrSet,
        definitions: &BuildingDefinitions,
    ) -> (r: Result<u32, BuildingError>)
        ensures
            r is Err ==> *final(self) == *old(self),
            ({
                let bs = old(self).buildings.contents();
                let b = bs[instance_id@];
                let defs = definitions.records();
                let d = defs[b.def_id@];
                let next = (b.tier + 1) as u32;
                &&& !bs.contains_key(instance_id@) ==> (r matches Err(BuildingError::UnknownBuilding { id }) && id@ == instance_id@)
                &&& bs.contains_key(instance_id@) && !working(b.state) ==> (r matches Err(BuildingError::WrongState { id, state, .. })
                    && id@ == instance_id@ && state == b.state)
                &&& bs.contains_key(instance_id@) && working(b.state) && defs.contains_key(b.def_id@)
                    && (b.tier >= TIER_CAP || next > top_tier_of(d) || !authors_tier(d, next)) ==> (r matches Err(
                    BuildingError::AtTopTier { id, tier },
                ) && id@ == instance_id@ && tier == b.tier)
                &&& bs.contains_key(instance_id@) && working(b.state) && !defs.contains_key(b.def_id@) ==> (r matches Err(
                    BuildingError::UnknownDefinition { id },
                ) && id@ == b.def_id@)
                &&& bs.contains_key(instance_id@) && working(b.state) && defs.contains_key(b.def_id@) && b.tier < TIER_CAP && next
                    <= top_tier_of(d) && authors_tier(d, next) ==> (r is Ok <==> exists|ts: TierState|
                    #![trigger first_tier_state(d, next, ts)]
                    first_tier_state(d, next, ts) && ts.construction_requirements@.subset_of(met_requirements@))
                &&& bs.contains_key(instance_id@) && working(b.state) && defs.contains_key(b.def_id@) && b.tier < TIER_CAP && next
                    <= top_tier_of(d) && authors_tier(d, next) && r is Err ==> (r matches Err(BuildingError::RequirementsNotMet { id, .. })
                    && id@ == instance_id@)
                &&& r matches Ok(t) ==> {
                    &&& bs.contains_key(instance_id@)
                    &&& working(b.state)
                    &&& defs.contains_key(b.def_id@)
                    &&& b.tier < TIER_CAP
                    &&& t == next
                    &&& exists|ts: TierState| #![trigger first_tier_state(d, next, ts)] first_tier_state(d, next, ts)
                        && ts.construction_requirements@.subset_of(met_requirements@)
                        && final(self).buildings.contents() == bs.insert(instance_id@, BuildingInstance {
                        tier: next,
                        hp: ts.hit_points,
                        construction_hours_remaining: ts.construction_hours,
                        state: if ts.construction_hours == 0 { BuildingState::Operational } else { BuildingState::UnderConstruction },
                        ..b
                    })
                    &&& *final(self) == (ExpeditionState { buildings: final(self).buildings, ..*old(self) })
                }
                &&& r matches Err(BuildingError::RequirementsNotMet { id, missing }) ==> id@ == instance_id@ && exists|ts: TierState|
                    #![trigger first_tier_state(d, next, ts)] first_tier_state(d, next, ts) && missing@ == ts.construction_requirements@.difference(met_requirements@)
                    && missing@ != Set::<Seq<char>>::empty()
            }),
    {
        let building = match self.require_building(instance_id) {
            Err(e) => return Err(e),
            Ok(b) => b,
        };
        if !building.is_working() {
            return Err(BuildingError::WrongState { id: owned(instance_id), state: building.state, wanted: "Operational or Captured" });
        }
        let definition = match definitions.require(building.def_id.as_str()) {
            Err(e) => return Err(e),
            Ok(d) => d,
        };
        let tier = building.tier;
        if tier >= TIER_CAP || tier + 1 > definition.top_tier() {
            return Err(BuildingError::AtTopTier { id: owned(instance_id), tier });
        }
        let next = tier + 1;
        let tier_state = match definition.tier(next) {
            Some(t) => t,
            None => return Err(BuildingError::AtTopTier { id: owned(instance_id), tier }),
        };
        let mut missing = StrSet::new();
        let reqs = &tier_state.construction_requirements;
        proof {
            reqs.lemma_order();
        }
        let mut k: usize = 0;
        while k < reqs.len()
            invariant
                k <= reqs.order().len(),
                forall|x: Seq<char>| #[trigger] missing@.contains(x) <==> exists|j: int|
                    0 <= j < k && reqs.order()[j] == x && !met_requirements@.contains(x),
            decreases reqs.order().len() - k,
        {
            let item = reqs.at(k);
            if !met_requirements.contains(item.as_str()) {
                missing.insert(item.clone());
            }
            proof {
                assert forall|x: Seq<char>| #[trigger] missing@.contains(x) <==> exists|j: int|
                    0 <= j < k + 1 && reqs.order()[j] == x && !met_requirements@.contains(x) by {
                    if x == reqs.order()[k as int] && !met_requirements@.contains(x) {
                        assert(missing@.contains(x));
                    }
                }
            }
            k = k + 1;
        }
        proof {
            assert forall|x: Seq<char>| #[trigger] missing@.contains(x) <==> reqs@.difference(met_requirements@).contains(x) by {
                if reqs@.contains(x) {
                    assert(reqs.order().contains(x));
                    let j = choose|j: int| 0 <= j < reqs.order().len() && reqs.order()[j] == x;
                    assert(reqs.order()[j] == x);
                }
                if missing@.contains(x) {
                    let j = choose|j: int| 0 <= j < reqs.order().len() && reqs.order()[j] == x && !met_requirements@.contains(x);
                    assert(reqs@.contains(reqs.order()[j]));
                }
            }
            assert(missing@ =~= reqs@.difference(met_requirements@));
        }
        proof {
            assert(first_tier_state(definitions.records()[building.def_id@], next, *tier_state));
        }
        if !missing.is_empty() {
            proof {
                let d = definitions.records()[building.def_id@];
                assert forall|other: TierState| #[trigger] first_tier_state(d, next, other) implies !other.construction_requirements@.subset_of(
                    met_requirements@,
                ) by {
                    lemma_first_tier_state_unique(d, next, *tier_state, other);
                    assert(missing@ != Set::<Seq<char>>::empty());
                    assert(exists|y: Seq<char>| missing@.contains(y)) by {
                        if forall|y: Seq<char>| !missing@.contains(y) {
                            assert(missing@ =~= Set::<Seq<char>>::empty());
                        }
                    }
                    let x = choose|x: Seq<char>| missing@.contains(x);
                    assert(reqs@.difference(met_requirements@).contains(x));
                }
            }
            return Err(BuildingError::RequirementsNotMet { id: owned(instance_id), missing });
        }
        proof {
            assert forall|x: Seq<char>| reqs@.contains(x) implies met_requirements@.contains(x) by {
                if !met_requirements@.contains(x) {
                    assert(missing@.contains(x));
                }
            }
        }
        let hours = tier_state.construction_hours;
        let hit_points = tier_state.hit_points;
        let ghost ts = *tier_state;
        let ghost old_b = *building;
        match self.buildings.get_mut(instance_id) {
            Some(b) => {
                b.tier = next;
                b.hp = hit_points;
                b.construction_hours_remaining = hours;
                b.state = if hours == 0 { BuildingState::Operational } else { BuildingState::UnderConstruction };
            },
            None => {},
        }
        proof {
            assert(first_tier_state(definitions.records()[old_b.def_id@], next, ts));
        }
        Ok(next)
    }

    /// Take hit points off a building and return the state it is left in.
    /// Above zero it is `Damaged`; at zero a capturable building stays a
    /// `Damaged` shell waiting to be taken, and any other is `Ruined`. Refuses
    /// an unknown building, a ruin, and a definition the registry does not
    /// carry. Either way it is no longer under construction, so no
    /// construction hours remain.
    pub fn damage_building(&mut self, instance_id: &str, amount: u32, definitions: &BuildingDefinitions) -> (r: Result<BuildingState, BuildingError>)
        ensures
            r is Err ==> *final(self) == *old(self),
            ({
                let bs = old(self).buildings.contents();
                let b = bs[instance_id@];
                let defs = definitions.records();
                let hp = if b.hp > amount { (b.hp - amount) as u32 } else { 0u32 };
                let state = if hp > 0 {
                    BuildingState::Damaged
                } else if defs[b.def_id@].capture_rules == CaptureRules::Capturable {
                    BuildingState::Damaged
                } else {
                    BuildingState::Ruined
                };
                &&& r is Ok <==> bs.contains_key(instance_id@) && b.state != BuildingState::Ruined && defs.contains_key(b.def_id@)
                &&& !bs.contains_key(instance_id@) ==> (r matches Err(BuildingError::UnknownBuilding { id }) && id@ == instance_id@)
                &&& bs.contains_key(instance_id@) && b.state == BuildingState::Ruined ==> (r matches Err(BuildingError::WrongState { id, state, .. })
                    && id@ == instance_id@ && state == BuildingState::Ruined)
                &&& r matches Ok(s) ==> {
                    &&& s == state
                    &&& final(self).buildings.contents() == bs.insert(instance_id@, BuildingInstance {
                        hp,
                        state,
                        construction_hours_remaining: 0,
                        ..b
                    })
                    &&& *final(self) == (ExpeditionState { buildings: final(self).buildings, ..*old(self) })
                }
            }),
    {
        let building = match self.require_building(instance_id) {
            Err(e) => return Err(e),
            Ok(b) => b,
        };
        if building.state == BuildingState::Ruined {
            return Err(BuildingError::WrongState { id: owned(instance_id), state: building.state, wanted: "anything but Ruined" });
        }
        let capture_rules = match definitions.require(building.def_id.as_str()) {
            Err(e) => return Err(e),
            Ok(d) => d.capture_rules,
        };
        let mut result = BuildingState::Damaged;
        match self.buildings.get_mut(instance_id) {
            Some(b) => {
                b.hp = b.hp.saturating_sub(amount);
                if b.hp > 0 {
                    b.state = BuildingState::Damaged;
                } else {
                    b.state = match capture_rules {
                        CaptureRules::Capturable => BuildingState::Damaged,
                        CaptureRules::DestroyOnly => BuildingState::Ruined,
                        CaptureRules::NeedsDecision => BuildingState::Ruined,
                    };
                }
                b.construction_hours_remaining = 0;
                result = b.state;
            },
            None => {},
        }
        Ok(result)
    }

    /// Hand a knocked-down capturable building to the attacker. Refuses, in
    /// this order: a malformed attacker ID, an unknown building, a capture by
    /// the faction that already holds it, a definition the registry does not
    /// carry or that is not capturable, and a building that is a ruin or
    /// still standing above zero hit points.
    pub fn capture_building(&mut self, instance_id: &str, attacker_faction_id: &str, definitions: &BuildingDefinitions) -> (r: Result<(), BuildingError>)
        ensures
            r is Err ==> *final(self) == *old(self),
            ({
                let bs = old(self).buildings.contents();
                let b = bs[instance_id@];
                let defs = definitions.records();
                &&& r is Ok <==> is_stable_id(attacker_faction_id@) && bs.contains_key(instance_id@) && b.faction_id@
                    != attacker_faction_id@ && defs.contains_key(b.def_id@) && defs[b.def_id@].capture_rules
                    == CaptureRules::Capturable && b.state != BuildingState::Ruined && b.hp == 0
                &&& is_stable_id(attacker_faction_id@) && bs.contains_key(instance_id@) && b.faction_id@ == attacker_faction_id@
                    ==> (r matches Err(BuildingError::AlreadyHeld { id, faction_id }) && id@ == instance_id@ && faction_id@
                    == attacker_faction_id@)
                &&& r is Ok ==> {
                    &&& exists|f: String| f@ == attacker_faction_id@ && final(self).buildings.contents() == bs.insert(instance_id@, BuildingInstance {
                        faction_id: f,
                        state: BuildingState::Captured,
                        hp: CAPTURE_HP_RESTORED,
                        construction_hours_remaining: 0,
                        ..b
                    })
                    &&& *final(self) == (ExpeditionState { buildings: final(self).buildings, ..*old(self) })
                }
            }),
    {
        match require_stable_id("faction_id", attacker_faction_id) {
            Err(e) => return Err(BuildingError::MalformedId(e)),
            Ok(()) => {},
        }
        let building = match self.require_building(instance_id) {
            Err(e) => return Err(e),
            Ok(b) => b,
        };
        if str_eq(building.faction_id.as_str(), attacker_faction_id) {
            return Err(BuildingError::AlreadyHeld { id: owned(instance_id), faction_id: owned(attacker_faction_id) });
        }
        let definition = match definitions.require(building.def_id.as_str()) {
            Err(e) => return Err(e),
            Ok(d) => d,
        };
        if definition.capture_rules != CaptureRules::Capturable {
            return Err(BuildingError::WrongState {
                id: owned(instance_id),
                state: building.state,
                wanted: "a definition whose capture_rules are Capturable",
            });
        }
        if building.state == BuildingState::Ruined || building.hp > 0 {
            return Err(BuildingError::WrongState { id: owned(instance_id), state: building.state, wanted: "Damaged at zero hit points" });
        }
        let attacker = owned(attacker_faction_id);
        let ghost f = attacker;
        match self.buildings.get_mut(instance_id) {
            Some(b) => {
                b.faction_id = attacker;
                b.state = BuildingState::Captured;
                b.hp = CAPTURE_HP_RESTORED;
                b.construction_hours_remaining = 0;
            },
            None => {},
        }
        Ok(())
    }

    /// Bring a building down deliberately, whatever its hit points were.
    /// Refuses an unknown building and one that is already a ruin.
    pub fn ruin_building(&mut self, instance_id: &str) -> (r: Result<(), BuildingError>)
        ensures
            r is Err ==> *final(self) == *old(self),
            ({
                let bs = old(self).buildings.contents();
                let b = bs[instance_id@];
                &&& r is Ok <==> bs.contains_key(instance_id@) && b.state != BuildingState::Ruined
                &&& !bs.contains_key(instance_id@) ==> (r matches Err(BuildingError::UnknownBuilding { id }) && id@ == instance_id@)
                &&& bs.contains_key(instance_id@) && b.state == BuildingState::Ruined ==> (r matches Err(BuildingError::WrongState { id, state, .. })
                    && id@ == instance_id@ && state == BuildingState::Ruined)
                &&& r is Ok ==> {
                    &&& final(self).buildings.contents() == bs.insert(instance_id@, BuildingInstance {
                        state: BuildingState::Ruined,
                        hp: 0,
                        construction_hours_remaining: 0,
                        ..b
                    })
                    &&& final(self).buildings@.len() == old(self).buildings@.len()
                    &&& keys_of(final(self).buildings@) == keys_of(old(self).buildings@)
                    &&& *final(self) == (ExpeditionState { buildings: final(self).buildings, ..*old(self) })
                }
            }),
    {
        let building = match self.require_building(instance_id) {
            Err(e) => return Err(e),
            Ok(b) => b,
        };
        if building.state == BuildingState::Ruined {
            return Err(BuildingError::WrongState { id: owned(instance_id), state: building.state, wanted: "anything but Ruined" });
        }
        match self.buildings.get_mut(instance_id) {
            Some(b) => {
                b.state = BuildingState::Ruined;
                b.hp = 0;
                b.construction_hours_remaining = 0;
            },
            None => {},
        }
        proof {
            assert(final(self).buildings@.len() == old(self).buildings@.len()) by {
                assert(keys_of(final(self).buildings@).len() == keys_of(old(self).buildings@).len());
            }
        }
        Ok(())
    }

    /// Every building standing on one cell, in order.
    pub fn buildings_at(&self, cell_id: &str) -> (r: Vec<&BuildingInstance>)
        ensures
            r@.map_values(|b: &BuildingInstance| *b) == on_cell(self.buildings@, cell_id@),
    {
        let ghost bs = self.buildings@;
        let mut r: Vec<&BuildingInstance> = Vec::new();
        let mut i: usize = 0;
        while i < self.buildings.len()
            invariant
                i <= bs.len(),
                bs == self.buildings@,
                r@.map_values(|b: &BuildingInstance| *b) == on_cell(bs.take(i as int), cell_id@),
            decreases bs.len() - i,
        {
            proof {
                assert(bs.take(i + 1).drop_last() =~= bs.take(i as int));
            }
            let b = self.buildings.value_at(i);
            if str_eq(b.cell_id.as_str(), cell_id) {
                r.push(b);
            }
            proof {
                assert(r@.map_values(|b: &BuildingInstance| *b) =~= on_cell(bs.take(i + 1), cell_id@));
            }
            i = i + 1;
        }
        proof {
            assert(bs.take(bs.len() as int) =~= bs);
        }
        r
    }

    /// Every actor socket a cell offers right now, with the instance that
    /// offers it: only working buildings offer sockets, and the sockets come
    /// from the registry, never from the save.
    pub fn actor_sockets_at(&self, cell_id: &str, definitions: &BuildingDefinitions) -> (r: Vec<(String, BuildingSocket)>)
        ensures
            r@ == sockets_on(self.buildings@, definitions.records(), cell_id@),
    {
        let ghost bs = self.buildings@;
        let mut r: Vec<(String, BuildingSocket)> = Vec::new();
        let mut i: usize = 0;
        while i < self.buildings.len()
            invariant
                i <= bs.len(),
                bs == self.buildings@,
                r@ == sockets_on(bs.take(i as int), definitions.records(), cell_id@),
            decreases bs.len() - i,
        {
            proof {
                assert(bs.take(i + 1).drop_last() =~= bs.take(i as int));
            }
            let b = self.buildings.value_at(i);
            if str_eq(b.cell_id.as_str(), cell_id) && b.is_working() {
                match definitions.get(b.def_id.as_str()) {
                    Some(d) => {
                        let ghost before = r@;
                        let mut k: usize = 0;
                        while k < d.actor_sockets.len()
                            invariant
                                k <= d.actor_sockets@.len(),
                                r@ == before + d.actor_sockets@.take(k as int).map_values(|s: BuildingSocket| (b.id, s)),
                            decreases d.actor_sockets@.len() - k,
                        {
                            r.push((b.id.clone(), d.actor_sockets[k].duplicate()));
                            proof {
                                assert(d.actor_sockets@.take(k + 1).map_values(|s: BuildingSocket| (b.id, s)) =~= d.actor_sockets@.take(
                                    k as int,
                                ).map_values(|s: BuildingSocket| (b.id, s)).push((b.id, d.actor_sockets@[k as int])));
                                assert(r@ =~= before + d.actor_sockets@.take(k + 1).map_values(|s: BuildingSocket| (b.id, s)));
                            }
                            k = k + 1;
                        }
                        proof {
                            assert(d.actor_sockets@.take(d.actor_sockets@.len() as int) =~= d.actor_sockets@);
                        }
                    },
                    None => {},
                }
            }
            i = i + 1;
        }
        proof {
            assert(bs.take(bs.len() as int) =~= bs);
        }
        r
    }
}

} // verus!
