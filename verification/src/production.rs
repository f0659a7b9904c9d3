//! Michael's faction produces machines, capacity and services -- never
//! people. Actor kits for his faction are machine families only.

use vstd::prelude::*;

use crate::building::{sat_add, BUILDING_INSTANCE_ID_PREFIX, BuildingDefinitions, BuildingError, BuildingInstance, BuildingState, ProductionOutput, ProductionRule};
use crate::tick::StrategicEvent;
use crate::expedition::{invalid_id, is_stable_id, require_stable_id, ExpeditionError, ExpeditionState};
use crate::faction::{ConceptKey, FactionDefinition, FactionState};
use crate::keyed::{first_at, keys_of, lemma_as_map_dom, lemma_as_map_value, lemma_update_first, StrMap, StrSet};
use crate::text::{decimal, hex_digits, owned, push_char, push_decimal, push_hex, push_str, seq_starts_with, starts_with, str_eq, strip_prefix};

verus! {

/// The eight machine families.
#[derive(Clone, Copy, Debug, PartialEq, Eq, PartialOrd, Ord, Structural)]
pub enum MachineFamily {
    MechanicalDog,
    MechanicalCavalry,
    MechanicalBear,
    MechanicalElephant,
    Walker,
    SteamWagon,
    Rocket,
    Airship,
}

impl Default for MachineFamily {
    fn default() -> (r: Self)
        ensures
            r == MachineFamily::MechanicalDog,
    {
        MachineFamily::MechanicalDog
    }
}

impl MachineFamily {
    pub const ALL: [MachineFamily; 8] = [
        MachineFamily::MechanicalDog,
        MachineFamily::MechanicalCavalry,
        MachineFamily::MechanicalBear,
        MachineFamily::MechanicalElephant,
        MachineFamily::Walker,
        MachineFamily::SteamWagon,
        MachineFamily::Rocket,
        MachineFamily::Airship,
    ];

    pub open spec fn key(self) -> Seq<char> {
        match self {
            MachineFamily::MechanicalDog => "mechanical_dog"@,
            MachineFamily::MechanicalCavalry => "mechanical_cavalry"@,
            MachineFamily::MechanicalBear => "mechanical_bear"@,
            MachineFamily::MechanicalElephant => "mechanical_elephant"@,
            MachineFamily::Walker => "walker"@,
            MachineFamily::SteamWagon => "steam_wagon"@,
            MachineFamily::Rocket => "rocket"@,
            MachineFamily::Airship => "airship"@,
        }
    }

    /// The authored key exactly as content writes it.
    pub fn as_key(self) -> (r: &'static str)
        ensures
            r@ == self.key(),
    {
        match self {
            MachineFamily::MechanicalDog => "mechanical_dog",
            MachineFamily::MechanicalCavalry => "mechanical_cavalry",
            MachineFamily::MechanicalBear => "mechanical_bear",
            MachineFamily::MechanicalElephant => "mechanical_elephant",
            MachineFamily::Walker => "walker",
            MachineFamily::SteamWagon => "steam_wagon",
            MachineFamily::Rocket => "rocket",
            MachineFamily::Airship => "airship",
        }
    }

    /// The inverse of `as_key`; `None` for anything outside the eight.
    pub fn from_key(key: &str) -> (r: Option<Self>)
        ensures
            match r {
                Some(f) => f.key() == key@,
                None => forall|f: MachineFamily| #[trigger] f.key() != key@,
            },
    {
        if str_eq(key, "mechanical_dog") {
            Some(MachineFamily::MechanicalDog)
        } else if str_eq(key, "mechanical_cavalry") {
            Some(MachineFamily::MechanicalCavalry)
        } else if str_eq(key, "mechanical_bear") {
            Some(MachineFamily::MechanicalBear)
        } else if str_eq(key, "mechanical_elephant") {
            Some(MachineFamily::MechanicalElephant)
        } else if str_eq(key, "walker") {
            Some(MachineFamily::Walker)
        } else if str_eq(key, "steam_wagon") {
            Some(MachineFamily::SteamWagon)
        } else if str_eq(key, "rocket") {
            Some(MachineFamily::Rocket)
        } else if str_eq(key, "airship") {
            Some(MachineFamily::Airship)
        } else {
            assert forall|f: MachineFamily| #[trigger] f.key() != key@ by {
                match f {
                    MachineFamily::MechanicalDog => {},
                    MachineFamily::MechanicalCavalry => {},
                    MachineFamily::MechanicalBear => {},
                    MachineFamily::MechanicalElephant => {},
                    MachineFamily::Walker => {},
                    MachineFamily::SteamWagon => {},
                    MachineFamily::Rocket => {},
                    MachineFamily::Airship => {},
                }
            }
            None
        }
    }
}

/// The prefix every machine definition ID carries.
pub const MACHINE_ID_PREFIX: &'static str = "machine.";

/// The prefix every produced machine's instance ID carries.
pub const MACHINE_INSTANCE_ID_PREFIX: &'static str = "machine_instance.";

/// What went wrong loading a machine record or producing a machine.
#[derive(Clone, Debug, PartialEq)]
pub enum ProductionError {
    MalformedId(ExpeditionError),
    WrongIdPrefix { found: String, expected: &'static str },
    Duplicate { id: String },
    UnknownDefinition { id: String },
    DuplicateDefinition { id: String },
    MichaelActorKitNamesANonMachine { faction_id: String, entry_id: String },
    UnknownBuilding { building_instance_id: String },
    NoSuchRule { building_instance_id: String, rule_index: usize },
    NotOperational { building_instance_id: String, state: BuildingState },
    BelowMinimumTier { building_instance_id: String, tier: u32, minimum_tier: u32 },
    NotAMachineRule { building_instance_id: String, rule_id: String },
    FamilyMismatch {
        rule_id: String,
        def_id: String,
        rule_family: MachineFamily,
        definition_family: MachineFamily,
    },
    UnknownFaction { faction_id: String },
    InsufficientResource { faction_id: String, key: String, held: u32, needed: u32 },
    Building(BuildingError),
}

impl From<BuildingError> for ProductionError {
    fn from(error: BuildingError) -> (r: Self) {
        ProductionError::Building(error)
    }
}

impl vstd::std_specs::convert::FromSpecImpl<BuildingError> for ProductionError {
    open spec fn obeys_from_spec() -> bool {
        true
    }

    open spec fn from_spec(v: BuildingError) -> Self {
        ProductionError::Building(v)
    }
}

/// One machine's authored design.
#[derive(Clone, Debug, Default, PartialEq, Eq)]
pub struct MachineDefinition {
    pub id: String,
    pub family: MachineFamily,
    pub operational_footprint_cells: u32,
    pub navigation_width_cells: u32,
    pub turning_clearance_cells: u32,
    pub maximum_slope: u8,
    pub valid_route_types: StrSet,
    pub bridge_requirements: StrSet,
    pub crew_or_handler_requirement: u32,
    pub fuel_requirement: u32,
    pub water_requirement: u32,
    pub repair_sockets: StrSet,
    pub local_and_offscreen_representations: String,
    pub wreck_footprint_cells: u32,
    pub salvage_value: StrMap<u32>,
}

/// Whether a machine record may enter the registry.
pub open spec fn machine_valid(d: MachineDefinition) -> bool {
    is_stable_id(d.id@) && seq_starts_with(d.id@, MACHINE_ID_PREFIX@)
}

/// What checking a record answers.
pub open spec fn machine_checked(definition: MachineDefinition, r: Result<(), ProductionError>) -> bool {
    &&& (r is Ok <==> machine_valid(definition))
    &&& (!is_stable_id(definition.id@) ==> (r matches Err(ProductionError::MalformedId(e)) && invalid_id(
        e,
        "machine.id",
        definition.id@,
    )))
    &&& (is_stable_id(definition.id@) && !seq_starts_with(definition.id@, MACHINE_ID_PREFIX@) ==> (r matches Err(
        ProductionError::WrongIdPrefix { found, expected },
    ) && found@ == definition.id@ && expected == MACHINE_ID_PREFIX))
}

impl MachineDefinition {
    /// The ID is a stable ID under `machine.`.
    pub fn validate(&self) -> (r: Result<(), ProductionError>)
        ensures
            machine_checked(*self, r),
    {
        match require_stable_id("machine.id", self.id.as_str()) {
            Err(e) => return Err(ProductionError::MalformedId(e)),
            Ok(()) => {},
        }
        if !starts_with(self.id.as_str(), MACHINE_ID_PREFIX) {
            return Err(ProductionError::WrongIdPrefix { found: self.id.clone(), expected: MACHINE_ID_PREFIX });
        }
        Ok(())
    }
}

/// The loaded machine records, keyed by ID.
#[derive(Clone, Debug, Default, PartialEq, Eq)]
pub struct MachineDefinitions {
    by_id: StrMap<MachineDefinition>,
}

impl MachineDefinitions {
    pub closed spec fn records(&self) -> Map<Seq<char>, MachineDefinition> {
        self.by_id.contents()
    }

    pub closed spec fn order(&self) -> Seq<(Seq<char>, MachineDefinition)> {
        self.by_id@
    }

    /// The registry's walk holds its records and nothing else: every entry
    /// is a record under its key, every record has an entry, and, the keys
    /// ascending, no key comes twice.
    pub proof fn lemma_order_records(&self)
        requires
            crate::keyed::ascending(crate::keyed::keys_of(self.order())),
        ensures
            crate::keyed::keys_of(self.order()).no_duplicates(),
            forall|i: int|
                #![trigger self.order()[i]]
                0 <= i < self.order().len() ==> self.records().contains_key(self.order()[i].0) && self.records()[self.order()[i].0]
                    == self.order()[i].1,
            forall|k: Seq<char>| self.records().contains_key(k) ==> crate::keyed::keys_of(self.order()).contains(k),
    {
        crate::keyed::lemma_ascending_unique(crate::keyed::keys_of(self.order()));
        crate::keyed::lemma_entries_map(self.by_id@);
    }

    pub fn new() -> (r: Self)
        ensures
            r.records() == Map::<Seq<char>, MachineDefinition>::empty(),
            r.order().len() == 0,
            crate::keyed::ascending(crate::keyed::keys_of(r.order())),
    {
        MachineDefinitions { by_id: StrMap::new() }
    }

    /// Validates, refuses a duplicate, then stores.
    pub fn insert(&mut self, definition: MachineDefinition) -> (r: Result<(), ProductionError>)
        ensures
            !machine_valid(definition) ==> machine_checked(definition, r),
            r is Ok ==> final(self).order().len() == old(self).order().len() + 1,
            crate::keyed::ascending(crate::keyed::keys_of(old(self).order())) ==> crate::keyed::ascending(crate::keyed::keys_of(final(self).order())),
            r is Ok <==> machine_valid(definition) && !old(self).records().contains_key(definition.id@),
            r is Ok ==> final(self).records() == old(self).records().insert(definition.id@, definition),
            r is Err ==> *final(self) == *old(self),
            machine_valid(definition) && old(self).records().contains_key(definition.id@) ==> (r matches Err(
                ProductionError::DuplicateDefinition { id },
            ) && id@ == definition.id@),
    {
        match definition.validate() {
            Err(e) => return Err(e),
            Ok(()) => {},
        }
        if self.by_id.contains_key(definition.id.as_str()) {
            return Err(ProductionError::DuplicateDefinition { id: definition.id.clone() });
        }
        let key = definition.id.clone();
        self.by_id.insert(key, definition);
        Ok(())
    }

    pub fn get(&self, id: &str) -> (r: Option<&MachineDefinition>)
        ensures
            match r {
                Some(d) => self.records().contains_key(id@) && *d == self.records()[id@],
                None => !self.records().contains_key(id@),
            },
    {
        self.by_id.get(id)
    }

    pub fn require(&self, id: &str) -> (r: Result<&MachineDefinition, ProductionError>)
        ensures
            match r {
                Ok(d) => self.records().contains_key(id@) && *d == self.records()[id@],
                Err(e) => !self.records().contains_key(id@) && (e matches ProductionError::UnknownDefinition { id: x }
                    && x@ == id@),
            },
    {
        match self.by_id.get(id) {
            Some(d) => Ok(d),
            None => Err(ProductionError::UnknownDefinition { id: id.to_owned() }),
        }
    }

    pub fn ids(&self) -> (r: Vec<String>)
        ensures
            r@.len() == self.order().len(),
            forall|i: int| 0 <= i < r@.len() ==> #[trigger] r@[i]@ == self.order()[i].0,
    {
        self.by_id.keys()
    }

    pub fn len(&self) -> (n: usize)
        ensures
            n == self.order().len(),
    {
        self.by_id.len()
    }

    pub fn is_empty(&self) -> (r: bool)
        ensures
            r == (self.order().len() == 0),
    {
        self.by_id.is_empty()
    }
}

/// Who takes the exposure of a faction's fighting.
#[derive(Clone, Copy, Debug, PartialEq, Eq, PartialOrd, Ord, Structural)]
pub enum ExposurePolicy {
    /// Machines go first: Michael's faction.
    MachinesFirst,
    /// Nothing is stated for this faction yet.
    Unstated,
}

impl ExposurePolicy {
    /// Michael's faction puts machines first; nothing is stated for the rest.
    pub fn of(concept_key: ConceptKey) -> (r: Self)
        ensures
            r == if concept_key == ConceptKey::Michael {
                ExposurePolicy::MachinesFirst
            } else {
                ExposurePolicy::Unstated
            },
    {
        match concept_key {
            ConceptKey::Michael => ExposurePolicy::MachinesFirst,
            _ => ExposurePolicy::Unstated,
        }
    }
}

/// One entry of a faction's actor kit, read against the machine registry.
#[derive(Clone, Debug, PartialEq, Eq)]
pub enum ActorKitEntry {
    Machine { id: String, family: MachineFamily },
    NonMachine { id: String },
}

impl ActorKitEntry {
    pub open spec fn id_of(&self) -> Seq<char> {
        match self {
            ActorKitEntry::Machine { id, .. } => id@,
            ActorKitEntry::NonMachine { id } => id@,
        }
    }

    pub fn id(&self) -> (r: &str)
        ensures
            r@ == self.id_of(),
    {
        match self {
            ActorKitEntry::Machine { id, .. } => id.as_str(),
            ActorKitEntry::NonMachine { id } => id.as_str(),
        }
    }

    pub fn family(&self) -> (r: Option<MachineFamily>)
        ensures
            r == match self {
                ActorKitEntry::Machine { family, .. } => Some(*family),
                ActorKitEntry::NonMachine { .. } => None,
            },
    {
        match self {
            ActorKitEntry::Machine { family, .. } => Some(*family),
            ActorKitEntry::NonMachine { .. } => None,
        }
    }
}

/// A faction's actor kit, every entry read against the machine registry.
#[derive(Clone, Debug, PartialEq, Eq)]
pub struct ActorKit {
    pub faction_id: String,
    pub entries: Vec<ActorKitEntry>,
    pub exposure_policy: ExposurePolicy,
}

/// An entry as the registry reads it.
pub open spec fn kit_entry(id: Seq<char>, machines: Map<Seq<char>, MachineDefinition>, e: ActorKitEntry) -> bool {
    if machines.contains_key(id) {
        e == (ActorKitEntry::Machine { id: e->Machine_id, family: machines[id].family }) && e->Machine_id@ == id
    } else {
        e is NonMachine && e->NonMachine_id@ == id
    }
}

impl ActorKit {
    /// A faction's kit: each actor-kit ID, in order, as a machine of the
    /// registry's family or as a non-machine. Michael's faction fields
    /// machines only: a non-machine entry in his kit is refused by name.
    pub fn of(definition: &FactionDefinition, machines: &MachineDefinitions) -> (r: Result<Self, ProductionError>)
        ensures
            ({
                let ids = definition.actor_kit.order();
                let michaels = definition.concept_key == ConceptKey::Michael;
                let all_machines = forall|i: int| 0 <= i < ids.len() ==> machines.records().contains_key(#[trigger] ids[i]);
                &&& r is Ok <==> (!michaels || all_machines)
                &&& r matches Ok(kit) ==> {
                    &&& kit.faction_id@ == definition.id@
                    &&& kit.exposure_policy == (if michaels { ExposurePolicy::MachinesFirst } else { ExposurePolicy::Unstated })
                    &&& kit.entries@.len() == ids.len()
                    &&& forall|i: int| 0 <= i < ids.len() ==> kit_entry(ids[i], machines.records(), #[trigger] kit.entries@[i])
                }
                &&& r matches Err(e) ==> (e matches ProductionError::MichaelActorKitNamesANonMachine { faction_id, entry_id }
                    && faction_id@ == definition.id@ && exists|i: int|
                    0 <= i < ids.len() && entry_id@ == ids[i] && !machines.records().contains_key(ids[i]) && forall|j: int|
                        0 <= j < i ==> machines.records().contains_key(#[trigger] ids[j]))
            }),
    {
        let michaels = definition.concept_key == ConceptKey::Michael;
        let mut entries: Vec<ActorKitEntry> = Vec::new();
        let mut i: usize = 0;
        while i < definition.actor_kit.len()
            invariant
                i <= definition.actor_kit.order().len(),
                michaels == (definition.concept_key == ConceptKey::Michael),
                entries@.len() == i,
                forall|j: int| 0 <= j < i ==> kit_entry(definition.actor_kit.order()[j], machines.records(), #[trigger] entries@[j]),
                michaels ==> forall|j: int| 0 <= j < i ==> machines.records().contains_key(#[trigger] definition.actor_kit.order()[j]),
            decreases definition.actor_kit.order().len() - i,
        {
            let id = definition.actor_kit.at(i);
            match machines.get(id.as_str()) {
                Some(machine) => {
                    entries.push(ActorKitEntry::Machine { id: id.clone(), family: machine.family });
                },
                None => {
                    if michaels {
                        return Err(
                            ProductionError::MichaelActorKitNamesANonMachine {
                                faction_id: definition.id.clone(),
                                entry_id: id.clone(),
                            },
                        );
                    }
                    entries.push(ActorKitEntry::NonMachine { id: id.clone() });
                },
            }
            i = i + 1;
        }
        Ok(ActorKit { faction_id: definition.id.clone(), entries, exposure_policy: ExposurePolicy::of(definition.concept_key) })
    }

    /// The machine families the kit fields, without repeats, in the order the
    /// kit first names them.
    pub fn families(&self) -> (r: Vec<MachineFamily>)
        ensures
            forall|f: MachineFamily| r@.contains(f) <==> exists|i: int|
                0 <= i < self.entries@.len() && (#[trigger] self.entries@[i]) == (ActorKitEntry::Machine {
                    id: self.entries@[i]->Machine_id,
                    family: f,
                }),
            forall|a: int, b: int| 0 <= a < b < r@.len() ==> r@[a] != r@[b],
    {
        let mut r: Vec<MachineFamily> = Vec::new();
        let mut i: usize = 0;
        while i < self.entries.len()
            invariant
                i <= self.entries@.len(),
                forall|f: MachineFamily| r@.contains(f) <==> exists|j: int|
                    0 <= j < i && (#[trigger] self.entries@[j]) == (ActorKitEntry::Machine {
                        id: self.entries@[j]->Machine_id,
                        family: f,
                    }),
                forall|a: int, b: int| 0 <= a < b < r@.len() ==> r@[a] != r@[b],
            decreases self.entries@.len() - i,
        {
            match &self.entries[i] {
                ActorKitEntry::Machine { family, .. } => {
                    let f = *family;
                    let seen = has_family(&r, f);
                    let ghost r0 = r@;
                    if !seen {
                        r.push(f);
                    }
                    proof {
                        assert(self.entries@[i as int] == (ActorKitEntry::Machine { id: self.entries@[i as int]->Machine_id, family: f }));
                        assert forall|g: MachineFamily| r@.contains(g) <==> exists|j: int|
                            0 <= j < i + 1 && (#[trigger] self.entries@[j]) == (ActorKitEntry::Machine {
                                id: self.entries@[j]->Machine_id,
                                family: g,
                            }) by {
                            if g == f {
                                if !seen {
                                    assert(r@[r@.len() - 1] == f);
                                }
                            } else {
                                if !seen {
                                    assert(r@ == r0.push(f));
                                    if r@.contains(g) {
                                        let m = choose|m: int| 0 <= m < r@.len() && r@[m] == g;
                                        assert(r0[m] == g);
                                    }
                                    if r0.contains(g) {
                                        let m = choose|m: int| 0 <= m < r0.len() && r0[m] == g;
                                        assert(r@[m] == g);
                                    }
                                }
                            }
                        }
                    }
                },
                ActorKitEntry::NonMachine { .. } => {},
            }
            i = i + 1;
        }
        r
    }
}

fn has_family(r: &Vec<MachineFamily>, f: MachineFamily) -> (b: bool)
    ensures
        b == r@.contains(f),
{
    let mut k: usize = 0;
    while k < r.len()
        invariant
            k <= r@.len(),
            forall|m: int| 0 <= m < k ==> r@[m] != f,
        decreases r@.len() - k,
    {
        if r[k] == f {
            return true;
        }
        k = k + 1;
    }
    false
}

/// One machine standing on the board.
#[derive(Clone, Debug, Default, PartialEq, Eq)]
pub struct MachineInstance {
    pub id: String,
    pub def_id: String,
    pub faction_id: String,
    pub cell_id: String,
    pub built_by_building_instance_id: String,
    pub fuel_remaining: u32,
    pub water_remaining: u32,
    pub damage: u32,
}

/// Why an hour's production came due and made nothing.
#[derive(Clone, Debug, PartialEq, Eq)]
pub enum ProductionSkipReason {
    /// The faction could not pay for it.
    InsufficientResource { key: String, held: u32, needed: u32 },
    /// The rule names a machine record the registry does not carry.
    UnknownMachineRecord { def_id: String },
    /// Any other refusal, described.
    Refused { detail: String },
}

/// What a stockpile holds of one key: nothing, where it has no entry.
pub open spec fn held_of(resources: Map<Seq<char>, u32>, key: Seq<char>) -> u32 {
    if resources.contains_key(key) {
        resources[key]
    } else {
        0
    }
}

/// The stockpile covers every key of the cost.
pub open spec fn covers(resources: Map<Seq<char>, u32>, cost: Seq<(Seq<char>, u32)>) -> bool {
    forall|i: int| 0 <= i < cost.len() ==> held_of(resources, (#[trigger] cost[i]).0) >= cost[i].1
}

/// `i` is the first key of the cost the stockpile does not cover.
pub open spec fn first_short(resources: Map<Seq<char>, u32>, cost: Seq<(Seq<char>, u32)>, i: int) -> bool {
    &&& 0 <= i < cost.len()
    &&& held_of(resources, cost[i].0) < cost[i].1
    &&& forall|j: int| 0 <= j < i ==> held_of(resources, (#[trigger] cost[j]).0) >= cost[j].1
}

/// The stockpile after paying the cost, key by key, in order.
pub open spec fn paid(resources: Map<Seq<char>, u32>, cost: Seq<(Seq<char>, u32)>) -> Map<Seq<char>, u32>
    decreases cost.len(),
{
    if cost.len() == 0 {
        resources
    } else {
        let before = paid(resources, cost.drop_last());
        let key = cost.last().0;
        if before.contains_key(key) {
            before.insert(key, if before[key] >= cost.last().1 { (before[key] - cost.last().1) as u32 } else { 0 })
        } else {
            before
        }
    }
}

impl FactionState {
    /// Take a cost out of the stockpile, key by key. Nothing is added and no
    /// key is created.
    pub fn pay(&mut self, cost: &StrMap<u32>)
        ensures
            final(self).resources.contents() == paid(old(self).resources.contents(), cost@),
            *final(self) == (FactionState { resources: final(self).resources, ..*old(self) }),
    {
        let mut i: usize = 0;
        proof {
            assert(cost@.take(0) =~= Seq::<(Seq<char>, u32)>::empty());
        }
        while i < cost.len()
            invariant
                i <= cost@.len(),
                self.resources.contents() == paid(old(self).resources.contents(), cost@.take(i as int)),
                *self == (FactionState { resources: self.resources, ..*old(self) }),
            decreases cost@.len() - i,
        {
            let needed = *cost.value_at(i);
            proof {
                assert(cost@.take(i + 1).drop_last() =~= cost@.take(i as int));
            }
            match self.resources.get_mut(cost.key_at(i).as_str()) {
                Some(held) => {
                    *held = held.saturating_sub(needed);
                },
                None => {},
            }
            i = i + 1;
        }
        proof {
            assert(cost@.take(cost@.len() as int) =~= cost@);
        }
    }
}

/// What charging a cost to a faction does, from `pre` to `post`.
pub open spec fn charge_outcome(pre: ExpeditionState, post: ExpeditionState, faction_id: Seq<char>, cost: Seq<(Seq<char>, u32)>, r: Result<(), ProductionError>) -> bool {
    &&& (!pre.factions.contents().contains_key(faction_id) ==> (r matches Err(ProductionError::UnknownFaction { faction_id: f })
        && f@ == faction_id))
    &&& (r is Err ==> post == pre)
    &&& (pre.factions.contents().contains_key(faction_id) ==> {
        let before = pre.factions.contents()[faction_id].resources.contents();
        &&& (r is Ok <==> covers(before, cost))
        &&& r matches Err(e) ==> exists|i: int| #[trigger] first_short(before, cost, i) && (e matches ProductionError::InsufficientResource {
            faction_id: f,
            key,
            held,
            needed,
        } && f@ == faction_id && key@ == cost[i].0 && held == held_of(before, cost[i].0) && needed == cost[i].1)
    })
    &&& (r is Ok ==> charged(pre, post, faction_id, cost))
}

/// Charge one production rule's cost to one faction's stockpile: every key
/// or none, and never below zero. Every key is checked before any is spent.
fn charge_production_cost(state: &mut ExpeditionState, faction_id: &str, cost: &StrMap<u32>) -> (r: Result<(), ProductionError>)
    ensures
        charge_outcome(*old(state), *final(state), faction_id@, cost@, r),
{
    let idx = match state.factions.find(faction_id) {
        Some(i) => i,
        None => {
            proof {
                lemma_as_map_dom(state.factions@, faction_id@);
            }
            return Err(ProductionError::UnknownFaction { faction_id: owned(faction_id) });
        },
    };
    proof {
        lemma_as_map_value(state.factions@, faction_id@, idx as int);
    }
    let ghost before = state.factions.contents()[faction_id@].resources.contents();
    let mut i: usize = 0;
    while i < cost.len()
        invariant
            i <= cost@.len(),
            *state == *old(state),
            state.factions.contents().contains_key(faction_id@),
            first_at(state.factions@, faction_id@, idx as int),
            state.factions.contents()[faction_id@].resources.contents() == before,
            state.factions@[idx as int].1.resources.contents() == before,
            forall|j: int| 0 <= j < i ==> held_of(before, (#[trigger] cost@[j]).0) >= cost@[j].1,
        decreases cost@.len() - i,
    {
        let needed = *cost.value_at(i);
        let held = match state.factions.value_at(idx).resources.get(cost.key_at(i).as_str()) {
            Some(h) => *h,
            None => 0,
        };
        if held < needed {
            proof {
                assert(first_short(before, cost@, i as int));
            }
            return Err(ProductionError::InsufficientResource {
                faction_id: owned(faction_id),
                key: cost.key_at(i).clone(),
                held,
                needed,
            });
        }
        i = i + 1;
    }
    proof {
        assert forall|j: int| #[trigger] first_short(before, cost@, j) implies false by {
            assert(held_of(before, cost@[j].0) >= cost@[j].1);
        }
    }
    let ghost s = state.factions@;
    let faction = state.factions.value_at_mut(idx);
    faction.pay(cost);
    proof {
        lemma_update_first(s, idx as int, faction_id@, *faction);
        assert(keys_of(state.factions@) =~= keys_of(s));
        lemma_as_map_dom(state.factions@, faction_id@);
    }
    Ok(())
}

/// `after` is `before` with one faction's stockpile charged the cost and
/// no other faction, and nothing else of that faction, touched.
pub open spec fn charged_factions(before: StrMap<FactionState>, after: StrMap<FactionState>, faction_id: Seq<char>, cost: Seq<(Seq<char>, u32)>) -> bool {
    let f = before.contents()[faction_id];
    let g = after.contents()[faction_id];
    &&& before.contents().contains_key(faction_id)
    &&& covers(f.resources.contents(), cost)
    &&& after.contents() == before.contents().insert(faction_id, g)
    &&& keys_of(after@) == keys_of(before@)
    &&& g.resources.contents() == paid(f.resources.contents(), cost)
    &&& g == (FactionState { resources: g.resources, ..f })
}

/// `after` is `before` with one faction charged the cost and nothing else
/// touched.
pub open spec fn charged(before: ExpeditionState, after: ExpeditionState, faction_id: Seq<char>, cost: Seq<(Seq<char>, u32)>) -> bool {
    &&& charged_factions(before.factions, after.factions, faction_id, cost)
    &&& after == (ExpeditionState { factions: after.factions, ..before })
}

impl MachineInstance {
    /// An owned copy.
    pub fn duplicate(&self) -> (r: MachineInstance)
        ensures
            r == *self,
    {
        MachineInstance {
            id: self.id.clone(),
            def_id: self.def_id.clone(),
            faction_id: self.faction_id.clone(),
            cell_id: self.cell_id.clone(),
            built_by_building_instance_id: self.built_by_building_instance_id.clone(),
            fuel_remaining: self.fuel_remaining,
            water_remaining: self.water_remaining,
            damage: self.damage,
        }
    }
}

/// The building standing under this instance ID.
pub open spec fn building_of(s: ExpeditionState, building_instance_id: Seq<char>) -> BuildingInstance {
    s.buildings.contents()[building_instance_id]
}

/// The production rule at `rule_index` of that building's definition.
pub open spec fn rule_of(s: ExpeditionState, building_instance_id: Seq<char>, definitions: BuildingDefinitions, rule_index: int) -> ProductionRule {
    definitions.records()[building_of(s, building_instance_id).def_id@].production@[rule_index]
}

/// Which of a production order's checks fails first, in the order they are
/// made; `13` when none does.
pub open spec fn production_stage(
    s: ExpeditionState,
    machine_instance_id: Seq<char>,
    building_instance_id: Seq<char>,
    rule_index: int,
    definitions: BuildingDefinitions,
    machines: MachineDefinitions,
) -> int {
    let b = building_of(s, building_instance_id);
    let d = definitions.records()[b.def_id@];
    let rule = d.production@[rule_index];
    if !is_stable_id(machine_instance_id) {
        0
    } else if !seq_starts_with(machine_instance_id, MACHINE_INSTANCE_ID_PREFIX@) {
        1
    } else if s.machines.contents().contains_key(machine_instance_id) {
        2
    } else if !s.buildings.contents().contains_key(building_instance_id) {
        3
    } else if b.state != BuildingState::Operational {
        4
    } else if !definitions.records().contains_key(b.def_id@) {
        5
    } else if rule_index >= d.production@.len() {
        6
    } else if b.tier < rule.minimum_tier {
        7
    } else if !(rule.output is Machine) {
        8
    } else if !machines.records().contains_key(rule.output_key@) {
        9
    } else if machines.records()[rule.output_key@].family != rule.output->family {
        10
    } else if !s.factions.contents().contains_key(b.faction_id@) {
        11
    } else if !covers(s.factions.contents()[b.faction_id@].resources.contents(), rule.cost@) {
        12
    } else {
        13
    }
}

/// What a production order does, from `pre` to `post`.
pub open spec fn machine_outcome(
    pre: ExpeditionState,
    post: ExpeditionState,
    machine_instance_id: Seq<char>,
    building_instance_id: Seq<char>,
    rule_index: int,
    definitions: BuildingDefinitions,
    machines: MachineDefinitions,
    r: Result<(MachineInstance, StrategicEvent), ProductionError>,
) -> bool {
    ({
        let stage = production_stage(pre, machine_instance_id, building_instance_id, rule_index, definitions, machines);
        let b = building_of(pre, building_instance_id);
        let rule = rule_of(pre, building_instance_id, definitions, rule_index);
        &&& (r is Ok <==> stage == 13)
        &&& (r is Err ==> post == pre)
        &&& (stage == 0 ==> (r matches Err(ProductionError::MalformedId(e)) && invalid_id(e, "machine.instance_id", machine_instance_id)))
        &&& (stage == 1 ==> (r matches Err(ProductionError::WrongIdPrefix { found, expected }) && found@ == machine_instance_id
            && expected == MACHINE_INSTANCE_ID_PREFIX))
        &&& (stage == 2 ==> (r matches Err(ProductionError::Duplicate { id }) && id@ == machine_instance_id))
        &&& (stage == 3 ==> (r matches Err(ProductionError::UnknownBuilding { building_instance_id: x }) && x@ == building_instance_id))
        &&& (stage == 4 ==> (r matches Err(ProductionError::NotOperational { building_instance_id: x, state }) && x@ == building_instance_id
            && state == b.state))
        &&& (stage == 5 ==> (r matches Err(ProductionError::Building(BuildingError::UnknownDefinition { id })) && id@ == b.def_id@))
        &&& (stage == 6 ==> (r matches Err(ProductionError::NoSuchRule { building_instance_id: x, rule_index: n })
            && x@ == building_instance_id && n == rule_index))
        &&& (stage == 7 ==> (r matches Err(ProductionError::BelowMinimumTier { building_instance_id: x, tier, minimum_tier })
            && x@ == building_instance_id && tier == b.tier && minimum_tier == rule.minimum_tier))
        &&& (stage == 8 ==> (r matches Err(ProductionError::NotAMachineRule { building_instance_id: x, rule_id })
            && x@ == building_instance_id && rule_id@ == rule.id@))
        &&& (stage == 9 ==> (r matches Err(ProductionError::UnknownDefinition { id }) && id@ == rule.output_key@))
        &&& (stage == 10 ==> (r matches Err(ProductionError::FamilyMismatch { rule_id, def_id, rule_family, definition_family })
            && rule_id@ == rule.id@ && def_id@ == machines.records()[rule.output_key@].id@ && rule_family == rule.output->family
            && definition_family == machines.records()[rule.output_key@].family))
        &&& (stage == 11 ==> (r matches Err(ProductionError::UnknownFaction { faction_id }) && faction_id@ == b.faction_id@))
        &&& (stage == 12 ==> exists|i: int| #[trigger] first_short(pre.factions.contents()[b.faction_id@].resources.contents(), rule.cost@, i)
            && (r matches Err(ProductionError::InsufficientResource { faction_id, key, held, needed }) && faction_id@ == b.faction_id@
            && key@ == rule.cost@[i].0 && held == held_of(pre.factions.contents()[b.faction_id@].resources.contents(), key@)
            && needed == rule.cost@[i].1))
        &&& (r matches Ok((m, ev)) ==> {
            let md = machines.records()[rule.output_key@];
            &&& m.id@ == machine_instance_id
            &&& m.def_id@ == md.id@
            &&& m.faction_id@ == b.faction_id@
            &&& m.cell_id@ == b.cell_id@
            &&& m.built_by_building_instance_id@ == building_instance_id
            &&& m.fuel_remaining == md.fuel_requirement
            &&& m.water_remaining == md.water_requirement
            &&& m.damage == 0
            &&& post.machines.contents() == pre.machines.contents().insert(machine_instance_id, m)
            &&& post.buildings.contents() == pre.buildings.contents().insert(
                building_instance_id,
                BuildingInstance { machines_produced: sat_add(b.machines_produced, 1), ..b },
            )
            &&& keys_of(post.buildings@) == keys_of(pre.buildings@)
            &&& charged_factions(pre.factions, post.factions, b.faction_id@, rule.cost@)
            &&& post == (ExpeditionState {
                machines: post.machines,
                buildings: post.buildings,
                factions: post.factions,
                ..pre
            })
            &&& ev matches StrategicEvent::MachineProduced { faction_id, family, building_instance_id: x, day }
            &&& ev->MachineProduced_faction_id@ == b.faction_id@
            &&& ev->MachineProduced_family == rule.output->family
            &&& ev->MachineProduced_building_instance_id@ == building_instance_id
            &&& ev->MachineProduced_day == pre.campaign_day
        })
    })
}

impl ExpeditionState {
    /// Build one machine from one of a building's production rules: the one
    /// way `machines` gains an entry. Every check is made before anything
    /// changes, so a refusal leaves the stockpile, the building and the
    /// machines as they were. No draw is taken.
    #[verifier::rlimit(50)]
    pub fn produce_machine(
        &mut self,
        machine_instance_id: &str,
        building_instance_id: &str,
        rule_index: usize,
        definitions: &BuildingDefinitions,
        machines: &MachineDefinitions,
    ) -> (r: Result<(MachineInstance, StrategicEvent), ProductionError>)
        ensures
            machine_outcome(*old(self), *final(self), machine_instance_id@, building_instance_id@, rule_index as int, *definitions, *machines, r),
    {
        match require_stable_id("machine.instance_id", machine_instance_id) {
            Ok(()) => {},
            Err(e) => {
                return Err(ProductionError::MalformedId(e));
            },
        }
        if !starts_with(machine_instance_id, MACHINE_INSTANCE_ID_PREFIX) {
            return Err(ProductionError::WrongIdPrefix { found: owned(machine_instance_id), expected: MACHINE_INSTANCE_ID_PREFIX });
        }
        if self.machines.contains_key(machine_instance_id) {
            return Err(ProductionError::Duplicate { id: owned(machine_instance_id) });
        }
        let building = match self.buildings.get(building_instance_id) {
            Some(b) => b,
            None => {
                return Err(ProductionError::UnknownBuilding { building_instance_id: owned(building_instance_id) });
            },
        };
        if building.state != BuildingState::Operational {
            return Err(ProductionError::NotOperational { building_instance_id: owned(building_instance_id), state: building.state });
        }
        let definition = match definitions.require(building.def_id.as_str()) {
            Ok(d) => d,
            Err(e) => {
                return Err(ProductionError::Building(e));
            },
        };
        if rule_index >= definition.production.len() {
            return Err(ProductionError::NoSuchRule { building_instance_id: owned(building_instance_id), rule_index });
        }
        let rule = &definition.production[rule_index];
        if building.tier < rule.minimum_tier {
            return Err(ProductionError::BelowMinimumTier {
                building_instance_id: owned(building_instance_id),
                tier: building.tier,
                minimum_tier: rule.minimum_tier,
            });
        }
        let rule_family = match rule.output {
            ProductionOutput::Machine { family } => family,
            _ => {
                return Err(ProductionError::NotAMachineRule { building_instance_id: owned(building_instance_id), rule_id: rule.id.clone() });
            },
        };
        let machine = match machines.require(rule.output_key.as_str()) {
            Ok(m) => m,
            Err(e) => {
                return Err(e);
            },
        };
        if machine.family != rule_family {
            return Err(ProductionError::FamilyMismatch {
                rule_id: rule.id.clone(),
                def_id: machine.id.clone(),
                rule_family,
                definition_family: machine.family,
            });
        }
        let faction_id = building.faction_id.clone();
        let cell_id = building.cell_id.clone();
        match charge_production_cost(self, faction_id.as_str(), &rule.cost) {
            Ok(()) => {},
            Err(e) => {
                return Err(e);
            },
        }
        let instance = MachineInstance {
            id: owned(machine_instance_id),
            def_id: machine.id.clone(),
            faction_id: faction_id.clone(),
            cell_id,
            built_by_building_instance_id: owned(building_instance_id),
            fuel_remaining: machine.fuel_requirement,
            water_remaining: machine.water_requirement,
            damage: 0,
        };
        self.machines.insert(instance.id.clone(), instance.duplicate());
        match self.buildings.get_mut(building_instance_id) {
            Some(yard) => {
                yard.machines_produced = yard.machines_produced.saturating_add(1);
            },
            None => {},
        }
        let event = StrategicEvent::MachineProduced {
            faction_id,
            family: rule_family,
            building_instance_id: owned(building_instance_id),
            day: self.campaign_day,
        };
        Ok((instance, event))
    }
}

impl ExpeditionState {
    /// Every machine this faction has standing, in instance-ID order.
    pub fn machines_of(&self, faction_id: &str) -> (r: Vec<&MachineInstance>)
        ensures
            r@.map_values(|m: &MachineInstance| *m) == owned_by(self.machines@, faction_id@),
    {
        let ghost ms = self.machines@;
        let mut r: Vec<&MachineInstance> = Vec::new();
        let mut i: usize = 0;
        while i < self.machines.len()
            invariant
                i <= ms.len(),
                ms == self.machines@,
                r@.map_values(|m: &MachineInstance| *m) == owned_by(ms.take(i as int), faction_id@),
            decreases ms.len() - i,
        {
            proof {
                assert(ms.take(i + 1).drop_last() =~= ms.take(i as int));
            }
            let m = self.machines.value_at(i);
            if str_eq(m.faction_id.as_str(), faction_id) {
                r.push(m);
            }
            proof {
                assert(r@.map_values(|m: &MachineInstance| *m) =~= owned_by(ms.take(i + 1), faction_id@));
            }
            i = i + 1;
        }
        proof {
            assert(ms.take(ms.len() as int) =~= ms);
        }
        r
    }
}

/// The machines of one faction, in order.
pub open spec fn owned_by(ms: Seq<(Seq<char>, MachineInstance)>, faction_id: Seq<char>) -> Seq<MachineInstance>
    decreases ms.len(),
{
    if ms.len() == 0 {
        Seq::empty()
    } else {
        let rest = owned_by(ms.drop_last(), faction_id);
        if ms.last().1.faction_id@ == faction_id {
            rest.push(ms.last().1)
        } else {
            rest
        }
    }
}

/// The reason a skip gives for a refusal: a shortfall keeps its key and
/// counts, an unknown record keeps its ID, and anything else is carried as
/// the refusal's `Debug` form.
pub open spec fn skip_reason(error: ProductionError, r: ProductionSkipReason) -> bool {
    match error {
        ProductionError::InsufficientResource { key, held, needed, .. } => (r matches ProductionSkipReason::InsufficientResource {
            key: k,
            held: h,
            needed: n,
        } && k@ == key@ && h == held && n == needed),
        ProductionError::UnknownDefinition { id } => (r matches ProductionSkipReason::UnknownMachineRecord { def_id } && def_id@ == id@),
        _ => (r matches ProductionSkipReason::Refused { detail } && detail@ == crate::refusal_text::production_error_text(error)),
    }
}

impl ProductionSkipReason {
    /// The reason a refusal gives, from the refusal: a shortfall keeps its key
    /// and counts, an unknown record keeps its ID, and anything else is
    /// carried as its description.
    pub fn of(error: &ProductionError) -> (r: Self)
        ensures
            skip_reason(*error, r),
    {
        match error {
            ProductionError::InsufficientResource { key, held, needed, .. } => ProductionSkipReason::InsufficientResource {
                key: key.clone(),
                held: *held,
                needed: *needed,
            },
            ProductionError::UnknownDefinition { id } => ProductionSkipReason::UnknownMachineRecord { def_id: id.clone() },
            other => {
                let mut detail = String::new();
                crate::refusal_text::put_production_error(&mut detail, other);
                ProductionSkipReason::Refused { detail }
            },
        }
    }
}

/// The instance ID one yield gets: the yard without its prefix, the rule's
/// position, the yard's running count of machines, and the hour's draw in
/// sixteen hex digits.
pub open spec fn machine_instance_id_of(building_instance_id: Seq<char>, rule_index: nat, ordinal: nat, draw: nat) -> Seq<char> {
    let yard = if seq_starts_with(building_instance_id, BUILDING_INSTANCE_ID_PREFIX@) {
        building_instance_id.skip(BUILDING_INSTANCE_ID_PREFIX@.len() as int)
    } else {
        building_instance_id
    };
    MACHINE_INSTANCE_ID_PREFIX@ + yard + seq!['.'] + decimal(rule_index) + seq!['.'] + decimal(ordinal) + seq!['.'] + hex_digits(draw, 16)
}

fn machine_instance_id(building_instance_id: &str, rule_index: usize, ordinal: u32, draw: u64) -> (r: String)
    ensures
        r@ == machine_instance_id_of(building_instance_id@, rule_index as nat, ordinal as nat, draw as nat),
{
    let mut id = owned(MACHINE_INSTANCE_ID_PREFIX);
    match strip_prefix(building_instance_id, BUILDING_INSTANCE_ID_PREFIX) {
        Some(yard) => push_str(&mut id, yard.as_str()),
        None => push_str(&mut id, building_instance_id),
    }
    push_char(&mut id, '.');
    push_decimal(&mut id, rule_index as u64);
    push_char(&mut id, '.');
    push_decimal(&mut id, ordinal as u64);
    push_char(&mut id, '.');
    push_hex(&mut id, draw, 16);
    id
}

/// The countdown entry of one rule, if it has one.
pub open spec fn countdown_of(c: Seq<(usize, u32)>, rule_index: int) -> Option<u32>
    decreases c.len(),
{
    if c.len() == 0 {
        None
    } else if c[0].0 == rule_index {
        Some(c[0].1)
    } else {
        countdown_of(c.drop_first(), rule_index)
    }
}

/// Set one rule's countdown, keeping the entries in rule order.
fn set_countdown(c: &mut Vec<(usize, u32)>, rule_index: usize, hours: u32)
    ensures
        forall|j: int| #[trigger] countdown_of(final(c)@, j) == if j == rule_index {
            Some(hours)
        } else {
            countdown_of(old(c)@, j)
        },
    decreases old(c)@.len(),
{
    if c.len() == 0 {
        c.push((rule_index, hours));
        proof {
            assert forall|j: int| #[trigger] countdown_of(c@, j) == if j == rule_index { Some(hours) } else { countdown_of(old(c)@, j) } by {
                assert(c@.drop_first() =~= Seq::<(usize, u32)>::empty());
                assert(countdown_of(c@.drop_first(), j) == None::<u32>);
            }
        }
    } else if c[0].0 == rule_index {
        c.set(0, (rule_index, hours));
        proof {
            assert forall|j: int| #[trigger] countdown_of(c@, j) == if j == rule_index { Some(hours) } else { countdown_of(old(c)@, j) } by {
                assert(c@.drop_first() =~= old(c)@.drop_first());
            }
        }
    } else if rule_index < c[0].0 {
        c.insert(0, (rule_index, hours));
        proof {
            assert forall|j: int| #[trigger] countdown_of(c@, j) == if j == rule_index { Some(hours) } else { countdown_of(old(c)@, j) } by {
                assert(c@.drop_first() =~= old(c)@);
            }
        }
    } else {
        let first = c.remove(0);
        set_countdown(c, rule_index, hours);
        let ghost mid = c@;
        c.insert(0, first);
        proof {
            assert forall|j: int| #[trigger] countdown_of(c@, j) == if j == rule_index { Some(hours) } else { countdown_of(old(c)@, j) } by {
                assert(c@.drop_first() =~= mid);
                assert(old(c)@.drop_first() =~= old(c)@.remove(0));
                assert(countdown_of(mid, j) == if j == rule_index { Some(hours) } else { countdown_of(old(c)@.drop_first(), j) });
            }
        }
    }
}

/// A building whose timers run this hour for this faction.
pub open spec fn ticks(b: BuildingInstance, faction_id: Seq<char>) -> bool {
    b.faction_id@ == faction_id && b.state == BuildingState::Operational
}

/// A rule whose timer runs on a building of this tier: one that makes no
/// person, is timer-driven, and applies at this tier.
pub open spec fn timed(rule: ProductionRule, tier: u32) -> bool {
    !(rule.output is HumanRole) && rule.interval_hours > 0 && tier >= rule.minimum_tier
}

/// One hour off a countdown, where a rule with no entry reads as its full
/// interval; a rule that comes due starts over at its full interval.
pub open spec fn counted_down(remaining: Option<u32>, interval: u32) -> u32 {
    let left = match remaining {
        Some(h) => h,
        None => interval,
    };
    if left <= 1 {
        interval
    } else {
        (left - 1) as u32
    }
}

/// The countdowns of one building once its first `upto` rules have had
/// their hour: each timed one counted down, every other entry as it was.
pub open spec fn hour_countdowns(before: BuildingInstance, after: BuildingInstance, rules: Seq<ProductionRule>, upto: int) -> bool {
    forall|j: int|
        #[trigger] countdown_of(after.production_countdown@, j) == if 0 <= j < upto && j < rules.len() && timed(rules[j], before.tier) {
            Some(counted_down(countdown_of(before.production_countdown@, j), rules[j].interval_hours))
        } else {
            countdown_of(before.production_countdown@, j)
        }
}

/// Buildings keep everything but their machine count, which only rises, and
/// their countdowns.
pub open spec fn buildings_frame(before: StrMap<BuildingInstance>, after: StrMap<BuildingInstance>) -> bool {
    &&& keys_of(after@) == keys_of(before@)
    &&& after.contents().dom() == before.contents().dom()
    &&& forall|k: Seq<char>|
        #![trigger after.contents()[k]]
        before.contents().contains_key(k) ==> {
            let b = before.contents()[k];
            let a = after.contents()[k];
            &&& a == (BuildingInstance { machines_produced: a.machines_produced, production_countdown: a.production_countdown, ..b })
            &&& a.machines_produced >= b.machines_produced
        }
}

/// Machines are only ever added.
pub open spec fn machines_grow(before: StrMap<MachineInstance>, after: StrMap<MachineInstance>) -> bool {
    before.contents().submap_of(after.contents())
}

/// No stockpile gains a key or grows; nothing else of a faction changes.
pub open spec fn stockpiles_shrink(before: StrMap<FactionState>, after: StrMap<FactionState>) -> bool {
    &&& after.contents().dom() == before.contents().dom()
    &&& forall|k: Seq<char>|
        #![trigger after.contents()[k]]
        before.contents().contains_key(k) ==> {
            let f = before.contents()[k];
            let g = after.contents()[k];
            &&& g == (FactionState { resources: g.resources, ..f })
            &&& g.resources.contents().dom() == f.resources.contents().dom()
            &&& forall|r: Seq<char>|
                #![trigger g.resources.contents()[r]]
                f.resources.contents().contains_key(r) ==> g.resources.contents()[r] <= f.resources.contents()[r]
        }
}

/// What an hour of production may change: machine counts and countdowns,
/// stockpiles (downward only) and the machines (by adding).
pub open spec fn production_frame(before: ExpeditionState, after: ExpeditionState) -> bool {
    &&& after == (ExpeditionState { buildings: after.buildings, machines: after.machines, factions: after.factions, ..before })
    &&& buildings_frame(before.buildings, after.buildings)
    &&& machines_grow(before.machines, after.machines)
    &&& stockpiles_shrink(before.factions, after.factions)
}

/// Paying a cost takes, never adds, and creates no key.
pub proof fn lemma_paid_shrinks(resources: Map<Seq<char>, u32>, cost: Seq<(Seq<char>, u32)>)
    ensures
        paid(resources, cost).dom() == resources.dom(),
        forall|r: Seq<char>| resources.contains_key(r) ==> #[trigger] paid(resources, cost)[r] <= resources[r],
    decreases cost.len(),
{
    if cost.len() > 0 {
        lemma_paid_shrinks(resources, cost.drop_last());
        let before = paid(resources, cost.drop_last());
        let key = cost.last().0;
        if before.contains_key(key) {
            assert(before.insert(key, if before[key] >= cost.last().1 { (before[key] - cost.last().1) as u32 } else { 0 }).dom() =~= before.dom());
        }
    }
}

/// The frame is closed under doing one thing after another.
pub proof fn lemma_frame_trans(a: ExpeditionState, b: ExpeditionState, c: ExpeditionState)
    requires
        production_frame(a, b),
        production_frame(b, c),
    ensures
        production_frame(a, c),
{
    assert forall|k: Seq<char>| a.buildings.contents().contains_key(k) implies {
        let x = a.buildings.contents()[k];
        let z = c.buildings.contents()[k];
        &&& z == (BuildingInstance { machines_produced: z.machines_produced, production_countdown: z.production_countdown, ..x })
        &&& z.machines_produced >= x.machines_produced
    } by {
        let y = b.buildings.contents()[k];
        let z = c.buildings.contents()[k];
        assert(b.buildings.contents().contains_key(k));
    }
    assert forall|k: Seq<char>| a.factions.contents().contains_key(k) implies {
        let f = a.factions.contents()[k];
        let g = c.factions.contents()[k];
        &&& g == (FactionState { resources: g.resources, ..f })
        &&& g.resources.contents().dom() == f.resources.contents().dom()
        &&& forall|r: Seq<char>|
            #![trigger g.resources.contents()[r]]
            f.resources.contents().contains_key(r) ==> g.resources.contents()[r] <= f.resources.contents()[r]
    } by {
        let m = b.factions.contents()[k];
        assert(b.factions.contents().contains_key(k));
        let f = a.factions.contents()[k];
        let g = c.factions.contents()[k];
        assert forall|r: Seq<char>| f.resources.contents().contains_key(r) implies g.resources.contents()[r] <= f.resources.contents()[r] by {
            let x = m.resources.contents()[r];
            let y = g.resources.contents()[r];
        }
    }
    assert(buildings_frame(a.buildings, c.buildings));
    vstd::map_lib::lemma_submap_of_trans(a.machines.contents(), b.machines.contents(), c.machines.contents());
    assert(stockpiles_shrink(a.factions, c.factions));
}

/// Charging a cost stays inside the frame.
pub proof fn lemma_charged_frame(before: StrMap<FactionState>, after: StrMap<FactionState>, faction_id: Seq<char>, cost: Seq<(Seq<char>, u32)>)
    requires
        charged_factions(before, after, faction_id, cost),
    ensures
        stockpiles_shrink(before, after),
{
    let f = before.contents()[faction_id];
    lemma_paid_shrinks(f.resources.contents(), cost);
    assert(after.contents().dom() =~= before.contents().dom());
}

/// Changing one building's countdowns stays inside the frame.
proof fn lemma_countdown_frame(pre: ExpeditionState, post: ExpeditionState, k: Seq<char>)
    requires
        pre.buildings.contents().contains_key(k),
        post.buildings.contents() == pre.buildings.contents().insert(k, post.buildings.contents()[k]),
        post.buildings.contents()[k] == (BuildingInstance {
            production_countdown: post.buildings.contents()[k].production_countdown,
            ..pre.buildings.contents()[k]
        }),
        keys_of(post.buildings@) == keys_of(pre.buildings@),
        post == (ExpeditionState { buildings: post.buildings, ..pre }),
    ensures
        production_frame(pre, post),
{
    assert(post.buildings.contents().dom() =~= pre.buildings.contents().dom());
    assert forall|x: Seq<char>| pre.buildings.contents().contains_key(x) implies {
        let b = pre.buildings.contents()[x];
        let a = post.buildings.contents()[x];
        &&& a == (BuildingInstance { machines_produced: a.machines_produced, production_countdown: a.production_countdown, ..b })
        &&& a.machines_produced >= b.machines_produced
    } by {
        if x != k {
            assert(post.buildings.contents()[x] == pre.buildings.contents()[x]);
        }
    }
    assert(stockpiles_shrink(pre.factions, post.factions)) by {
        assert(post.factions == pre.factions);
        assert forall|x: Seq<char>| pre.factions.contents().contains_key(x) implies {
            let f = pre.factions.contents()[x];
            let g = post.factions.contents()[x];
            &&& g == (FactionState { resources: g.resources, ..f })
            &&& g.resources.contents().dom() == f.resources.contents().dom()
            &&& forall|r: Seq<char>|
                #![trigger g.resources.contents()[r]]
                f.resources.contents().contains_key(r) ==> g.resources.contents()[r] <= f.resources.contents()[r]
        } by {}
    }
}

/// A charge alone stays inside the frame.
proof fn lemma_charge_frame(pre: ExpeditionState, post: ExpeditionState, faction_id: Seq<char>, cost: Seq<(Seq<char>, u32)>)
    requires
        charged(pre, post, faction_id, cost),
    ensures
        production_frame(pre, post),
{
    lemma_charged_frame(pre.factions, post.factions, faction_id, cost);
    assert forall|x: Seq<char>| pre.buildings.contents().contains_key(x) implies {
        let b = pre.buildings.contents()[x];
        let a = post.buildings.contents()[x];
        &&& a == (BuildingInstance { machines_produced: a.machines_produced, production_countdown: a.production_countdown, ..b })
        &&& a.machines_produced >= b.machines_produced
    } by {}
}

/// A machine produced stays inside the frame.
proof fn lemma_produced_frame(pre: ExpeditionState, post: ExpeditionState, k: Seq<char>, mid: Seq<char>, m: MachineInstance, faction_id: Seq<char>, cost: Seq<(Seq<char>, u32)>)
    requires
        pre.buildings.contents().contains_key(k),
        !pre.machines.contents().contains_key(mid),
        post.machines.contents() == pre.machines.contents().insert(mid, m),
        post.buildings.contents() == pre.buildings.contents().insert(
            k,
            BuildingInstance { machines_produced: sat_add(pre.buildings.contents()[k].machines_produced, 1), ..pre.buildings.contents()[k] },
        ),
        keys_of(post.buildings@) == keys_of(pre.buildings@),
        charged_factions(pre.factions, post.factions, faction_id, cost),
        post == (ExpeditionState { machines: post.machines, buildings: post.buildings, factions: post.factions, ..pre }),
    ensures
        production_frame(pre, post),
{
    lemma_charged_frame(pre.factions, post.factions, faction_id, cost);
    assert(post.buildings.contents().dom() =~= pre.buildings.contents().dom());
    assert forall|x: Seq<char>| pre.buildings.contents().contains_key(x) implies {
        let b = pre.buildings.contents()[x];
        let a = post.buildings.contents()[x];
        &&& a == (BuildingInstance { machines_produced: a.machines_produced, production_countdown: a.production_countdown, ..b })
        &&& a.machines_produced >= b.machines_produced
    } by {
        if x != k {
            assert(post.buildings.contents()[x] == pre.buildings.contents()[x]);
        }
    }
}

/// What an hour of production is owed, per building: a building of this
/// faction that stands operational and whose record the registry carries has
/// every timed rule counted down; any other building's countdowns stay as
/// they were.
pub open spec fn hour_of_production(before: BuildingInstance, after: BuildingInstance, faction_id: Seq<char>, definitions: BuildingDefinitions) -> bool {
    if ticks(before, faction_id) && definitions.records().contains_key(before.def_id@) {
        let rules = definitions.records()[before.def_id@].production@;
        hour_countdowns(before, after, rules, rules.len() as int)
    } else {
        after.production_countdown == before.production_countdown
    }
}

/// What production reports: machines made, yields paid for, and yields
/// skipped; the last two name the faction whose hour it was.
pub open spec fn production_event(e: StrategicEvent, faction_id: Seq<char>) -> bool {
    ||| e is MachineProduced
    ||| e matches StrategicEvent::ProductionYielded { faction_id: f, .. } && f@ == faction_id
    ||| e matches StrategicEvent::ProductionSkipped { faction_id: f, .. } && f@ == faction_id
}

/// The faction an event of production names.
pub open spec fn produced_for(e: StrategicEvent, faction_id: Seq<char>) -> bool {
    e matches StrategicEvent::MachineProduced { faction_id: f, .. } ==> f@ == faction_id
}

/// A timed rule whose countdown, read as it stands, runs out this hour.
pub open spec fn comes_due(b: BuildingInstance, rule: ProductionRule, j: int) -> bool {
    &&& timed(rule, b.tier)
    &&& match countdown_of(b.production_countdown@, j) {
        Some(h) => h <= 1,
        None => rule.interval_hours <= 1,
    }
}

/// The building and rule of each of a building's first `n` rules that comes
/// due, in rule order.
pub open spec fn dues_of(key: Seq<char>, b: BuildingInstance, rules: Seq<ProductionRule>, n: int) -> Seq<(Seq<char>, int, ProductionRule)>
    decreases n,
{
    if n <= 0 {
        Seq::empty()
    } else {
        let rest = dues_of(key, b, rules, n - 1);
        if comes_due(b, rules[n - 1], n - 1) {
            rest.push((key, n - 1, rules[n - 1]))
        } else {
            rest
        }
    }
}

/// The rules of one building that come due for a faction this hour: none
/// unless the faction has it standing operational and its record is known.
pub open spec fn building_dues(start: ExpeditionState, key: Seq<char>, faction_id: Seq<char>, buildings: BuildingDefinitions) -> Seq<(Seq<char>, int, ProductionRule)> {
    let b = start.buildings.contents()[key];
    if ticks(b, faction_id) && buildings.records().contains_key(b.def_id@) {
        let rules = buildings.records()[b.def_id@].production@;
        dues_of(key, b, rules, rules.len() as int)
    } else {
        Seq::empty()
    }
}

/// The rules that come due this hour across the first `n` buildings, in
/// building order and then rule order.
pub open spec fn hour_dues(start: ExpeditionState, keys: Seq<Seq<char>>, faction_id: Seq<char>, buildings: BuildingDefinitions, n: int) -> Seq<
    (Seq<char>, int, ProductionRule),
>
    decreases n,
{
    if n <= 0 {
        Seq::empty()
    } else {
        hour_dues(start, keys, faction_id, buildings, n - 1) + building_dues(start, keys[n - 1], faction_id, buildings)
    }
}

/// `e` answers a rule that came due, on this day, for this faction: a
/// machine rule makes a machine of its family at that building; any other
/// rule is paid for and yields what it names; either may instead be skipped,
/// naming the building and the rule.
pub open spec fn answers_due(e: StrategicEvent, due: (Seq<char>, int, ProductionRule), faction_id: Seq<char>, day: u32) -> bool {
    match e {
        StrategicEvent::MachineProduced { faction_id: f, family, building_instance_id, day: d } => f@ == faction_id && building_instance_id@
            == due.0 && d == day && (due.2.output matches ProductionOutput::Machine { family: m } && m == family),
        StrategicEvent::ProductionYielded { faction_id: f, building_instance_id, rule_id, output_key, amount, day: d } => f@ == faction_id
            && building_instance_id@ == due.0 && rule_id@ == due.2.id@ && !(due.2.output is Machine) && output_key@ == due.2.output_key@
            && amount == due.2.amount && d == day,
        StrategicEvent::ProductionSkipped { faction_id: f, building_instance_id, rule_id, day: d, .. } => f@ == faction_id
            && building_instance_id@ == due.0 && rule_id@ == due.2.id@ && d == day,
        _ => false,
    }
}

/// Between two answers to rules that come due, only countdowns move: the
/// stockpiles, the machines, the day and every building's machine count are
/// carried from `a` to `b`.
pub open spec fn carried(a: ExpeditionState, b: ExpeditionState) -> bool {
    &&& b.factions == a.factions
    &&& b.machines == a.machines
    &&& b.campaign_day == a.campaign_day
    &&& b.buildings.contents().dom() == a.buildings.contents().dom()
    &&& forall|k: Seq<char>|
        #![trigger b.buildings.contents()[k]]
        a.buildings.contents().contains_key(k) ==> b.buildings.contents()[k].machines_produced == a.buildings.contents()[k].machines_produced
}

/// Carrying is transitive.
pub proof fn lemma_carried_trans(a: ExpeditionState, b: ExpeditionState, c: ExpeditionState)
    requires
        carried(a, b),
        carried(b, c),
    ensures
        carried(a, c),
{
    assert forall|x: Seq<char>| #[trigger] a.buildings.contents().contains_key(x) implies c.buildings.contents()[x].machines_produced
        == a.buildings.contents()[x].machines_produced by {
        assert(b.buildings.contents()[x].machines_produced == a.buildings.contents()[x].machines_produced);
    }
}

/// The board an answer starts from: the hour's start for the first, and
/// where the one before left it for the rest.
pub open spec fn step_start(start: ExpeditionState, posts: Seq<ExpeditionState>, i: int) -> ExpeditionState {
    if i <= 0 {
        start
    } else {
        posts[i - 1]
    }
}

/// `e` skips rule `rule` of building `key` for `faction_id` on `day`, giving
/// the reason `error` gives.
pub open spec fn skipped_for(e: StrategicEvent, faction_id: Seq<char>, key: Seq<char>, rule: ProductionRule, error: ProductionError, day: u32) -> bool {
    e matches StrategicEvent::ProductionSkipped { faction_id: f, building_instance_id, rule_id, reason, day: d } && f@ == faction_id
        && building_instance_id@ == key && rule_id@ == rule.id@ && skip_reason(error, reason) && d == day
}

/// How a rule that came due is answered, from `pre` to `post`: a machine
/// rule orders its machine, under the ID its building, position, count and
/// the hour's draw give, and reports what the order made or why it was
/// refused; any other rule charges its cost and reports its yield, or why
/// the charge was refused.
pub open spec fn due_answered(
    pre: ExpeditionState,
    post: ExpeditionState,
    key: Seq<char>,
    j: int,
    rule: ProductionRule,
    faction_id: Seq<char>,
    buildings: BuildingDefinitions,
    machines: MachineDefinitions,
    draw: u64,
    e: StrategicEvent,
) -> bool {
    if rule.output is Machine {
        exists|res: Result<(MachineInstance, StrategicEvent), ProductionError>|
            #![trigger machine_outcome(pre, post, machine_instance_id_of(key, j as nat, pre.buildings.contents()[key].machines_produced as nat, draw as nat), key, j, buildings, machines, res)]
            machine_outcome(
                pre,
                post,
                machine_instance_id_of(key, j as nat, pre.buildings.contents()[key].machines_produced as nat, draw as nat),
                key,
                j,
                buildings,
                machines,
                res,
            ) && match res {
                Ok(made) => e == made.1,
                Err(error) => skipped_for(e, faction_id, key, rule, error, pre.campaign_day),
            }
    } else {
        exists|res: Result<(), ProductionError>|
            #![trigger charge_outcome(pre, post, faction_id, rule.cost@, res)]
            charge_outcome(pre, post, faction_id, rule.cost@, res) && match res {
                Ok(_) => e matches StrategicEvent::ProductionYielded { faction_id: f, building_instance_id, rule_id, output_key, amount, day }
                    && f@ == faction_id && building_instance_id@ == key && rule_id@ == rule.id@ && output_key@ == rule.output_key@ && amount
                    == rule.amount && day == pre.campaign_day,
                Err(error) => skipped_for(e, faction_id, key, rule, error, pre.campaign_day),
            }
    }
}

/// A machine order's outcome answers the rule that came due.
pub proof fn lemma_machine_answered(
    pre: ExpeditionState,
    post: ExpeditionState,
    key: Seq<char>,
    j: int,
    rule: ProductionRule,
    faction_id: Seq<char>,
    buildings: BuildingDefinitions,
    machines: MachineDefinitions,
    draw: u64,
    e: StrategicEvent,
    res: Result<(MachineInstance, StrategicEvent), ProductionError>,
)
    requires
        rule.output is Machine,
        machine_outcome(
            pre,
            post,
            machine_instance_id_of(key, j as nat, pre.buildings.contents()[key].machines_produced as nat, draw as nat),
            key,
            j,
            buildings,
            machines,
            res,
        ),
        match res {
            Ok(made) => e == made.1,
            Err(error) => skipped_for(e, faction_id, key, rule, error, pre.campaign_day),
        },
    ensures
        due_answered(pre, post, key, j, rule, faction_id, buildings, machines, draw, e),
{
}

/// What one hour of a faction's production does to the board `start`,
/// leaving `end` and reporting `events`.
pub open spec fn production_advanced(
    start: ExpeditionState,
    end: ExpeditionState,
    faction_id: Seq<char>,
    buildings: BuildingDefinitions,
    machines: MachineDefinitions,
    draw: u64,
    events: Seq<StrategicEvent>,
) -> bool {
    &&& (production_frame(start, end))
    &&& (keys_of(start.buildings@).no_duplicates() ==> forall|k: Seq<char>|
        start.buildings.contents().contains_key(k) ==> hour_of_production(
            start.buildings.contents()[k],
            #[trigger] end.buildings.contents()[k],
            faction_id,
            buildings,
        ))
    &&& (forall|i: int| 0 <= i < events.len() ==> production_event(#[trigger] events[i], faction_id))
    &&& (keys_of(start.buildings@).no_duplicates() ==> forall|i: int| 0 <= i < events.len() ==> produced_for(#[trigger] events[i], faction_id))
    &&& (keys_of(start.buildings@).no_duplicates() ==> {
        let dues = hour_dues(start, keys_of(start.buildings@), faction_id, buildings, start.buildings@.len() as int);
        &&& events.len() == dues.len()
        &&& forall|i: int| 0 <= i < events.len() ==> answers_due(#[trigger] events[i], dues[i], faction_id, start.campaign_day)
        &&& exists|pres: Seq<ExpeditionState>, posts: Seq<ExpeditionState>|
            {
                &&& pres.len() == dues.len()
                &&& posts.len() == dues.len()
                &&& forall|i: int|
                    0 <= i < dues.len() ==> carried(step_start(start, posts, i), #[trigger] pres[i]) && due_answered(
                        pres[i],
                        posts[i],
                        dues[i].0,
                        dues[i].1,
                        dues[i].2,
                        faction_id,
                        buildings,
                        machines,
                        draw,
                        events[i],
                    )
                &&& carried(step_start(start, posts, dues.len() as int), end)
            }
    })
    &&& (keys_of(start.buildings@).no_duplicates() ==> forall|k: Seq<char>|
        #![trigger end.buildings.contents()[k]]
        start.buildings.contents().contains_key(k) && !(ticks(start.buildings.contents()[k], faction_id)
            && buildings.records().contains_key(start.buildings.contents()[k].def_id@)) ==> end.buildings.contents()[k]
            == start.buildings.contents()[k])
}

/// One hour of one faction's production. Every timed rule of every building
/// that faction has standing operational counts one hour off; a rule that
/// reaches zero starts over at its full interval whether or not it yields.
/// A machine rule yields through `produce_machine`; a capacity or service
/// rule pays its cost and is reported. A rule that makes a person never
/// counts down. Production only ever spends: nothing refills a stockpile.
#[verifier::rlimit(80)]
pub fn advance_production(
    state: &mut ExpeditionState,
    faction_id: &str,
    buildings: &BuildingDefinitions,
    machines: &MachineDefinitions,
    draw: u64,
) -> (r: Vec<StrategicEvent>)
    ensures
        production_advanced(*old(state), *final(state), faction_id@, *buildings, *machines, draw, r@),
{
    let day = state.campaign_day;
    let ghost start = *state;
    let ghost keys = keys_of(start.buildings@);
    let mut events: Vec<StrategicEvent> = Vec::new();
    let mut i: usize = 0;
    proof {
        assert(start.machines.contents().submap_of(start.machines.contents()));
        assert(stockpiles_shrink(start.factions, start.factions)) by {
            assert forall|x: Seq<char>| start.factions.contents().contains_key(x) implies {
                let f = start.factions.contents()[x];
                let g = start.factions.contents()[x];
                &&& g == (FactionState { resources: g.resources, ..f })
                &&& g.resources.contents().dom() == f.resources.contents().dom()
                &&& forall|r: Seq<char>|
                    #![trigger g.resources.contents()[r]]
                    f.resources.contents().contains_key(r) ==> g.resources.contents()[r] <= f.resources.contents()[r]
            } by {}
        }
    }
    let ghost mut pres: Seq<ExpeditionState> = Seq::empty();
    let ghost mut posts: Seq<ExpeditionState> = Seq::empty();
    while i < state.buildings.len()
        invariant
            i <= keys.len(),
            keys == keys_of(start.buildings@),
            keys.no_duplicates() ==> pres.len() == events@.len() && posts.len() == events@.len(),
            keys.no_duplicates() ==> forall|m: int|
                0 <= m < events@.len() ==> carried(step_start(start, posts, m), #[trigger] pres[m]) && due_answered(
                    pres[m],
                    posts[m],
                    hour_dues(start, keys, faction_id@, *buildings, i as int)[m].0,
                    hour_dues(start, keys, faction_id@, *buildings, i as int)[m].1,
                    hour_dues(start, keys, faction_id@, *buildings, i as int)[m].2,
                    faction_id@,
                    *buildings,
                    *machines,
                    draw,
                    events@[m],
                ),
            keys.no_duplicates() ==> carried(step_start(start, posts, events@.len() as int), *state),
            keys.no_duplicates() ==> forall|x: Seq<char>|
                #![trigger state.buildings.contents()[x]]
                start.buildings.contents().contains_key(x) && !(ticks(start.buildings.contents()[x], faction_id@)
                    && buildings.records().contains_key(start.buildings.contents()[x].def_id@)) ==> state.buildings.contents()[x].machines_produced
                    == start.buildings.contents()[x].machines_produced,
            keys_of(state.buildings@) == keys,
            day == start.campaign_day,
            production_frame(start, *state),
            keys.no_duplicates() ==> forall|p: int|
                0 <= p < keys.len() ==> {
                    let b = start.buildings.contents()[#[trigger] keys[p]];
                    let a = state.buildings.contents()[keys[p]];
                    if p < i {
                        hour_of_production(b, a, faction_id@, *buildings)
                    } else {
                        a.production_countdown == b.production_countdown
                    }
                },
            forall|m: int| 0 <= m < events@.len() ==> production_event(#[trigger] events@[m], faction_id@),
            keys.no_duplicates() ==> forall|m: int| 0 <= m < events@.len() ==> produced_for(#[trigger] events@[m], faction_id@),
            keys.no_duplicates() ==> events@.len() == hour_dues(start, keys, faction_id@, *buildings, i as int).len(),
            keys.no_duplicates() ==> forall|m: int|
                0 <= m < events@.len() ==> answers_due(#[trigger] events@[m], hour_dues(start, keys, faction_id@, *buildings, i as int)[m], faction_id@, day),
        decreases keys.len() - i,
    {
        let key = state.buildings.key_at(i).clone();
        let ghost k = key@;
        proof {
            assert(keys[i as int] == k);
            lemma_as_map_dom(start.buildings@, k);
            assert(start.buildings.contents().contains_key(k));
        }
        let b = state.buildings.value_at(i);
        proof {
            if keys.no_duplicates() {
                assert(first_at(state.buildings@, k, i as int)) by {
                    assert forall|x: int| 0 <= x < i implies (#[trigger] state.buildings@[x]).0 != k by {
                        assert(keys[x] == state.buildings@[x].0);
                        assert(keys[x] != keys[i as int]);
                    }
                }
                lemma_as_map_value(state.buildings@, k, i as int);
                assert(state.buildings.contents()[k] == *b);
            }
        }
        let is_ticking = str_eq(b.faction_id.as_str(), faction_id) && b.state == BuildingState::Operational;
        let tier = b.tier;
        let definition = if is_ticking {
            buildings.get(b.def_id.as_str())
        } else {
            None
        };
        let ghost outer = *state;
        match definition {
            Some(definition) => {
                let ghost mid = *state;
                let mut j: usize = 0;
                proof {
                    if keys.no_duplicates() {
                        assert forall|x: int| #[trigger] countdown_of(state.buildings.contents()[k].production_countdown@, x) == if 0 <= x < 0 && x < definition.production@.len() && timed(definition.production@[x], mid.buildings.contents()[k].tier) {
                            Some(counted_down(countdown_of(mid.buildings.contents()[k].production_countdown@, x), definition.production@[x].interval_hours))
                        } else {
                            countdown_of(mid.buildings.contents()[k].production_countdown@, x)
                        } by {}
                    }
                    assert(mid.machines.contents().submap_of(mid.machines.contents()));
                    assert(stockpiles_shrink(mid.factions, mid.factions)) by {
                        assert forall|x: Seq<char>| mid.factions.contents().contains_key(x) implies {
                            let f = mid.factions.contents()[x];
                            let g = mid.factions.contents()[x];
                            &&& g == (FactionState { resources: g.resources, ..f })
                            &&& g.resources.contents().dom() == f.resources.contents().dom()
                            &&& forall|r: Seq<char>|
                                #![trigger g.resources.contents()[r]]
                                f.resources.contents().contains_key(r) ==> g.resources.contents()[r] <= f.resources.contents()[r]
                        } by {}
                    }
                    assert(buildings_frame(mid.buildings, mid.buildings)) by {
                        assert forall|x: Seq<char>| mid.buildings.contents().contains_key(x) implies {
                            let b = mid.buildings.contents()[x];
                            let a = mid.buildings.contents()[x];
                            &&& a == (BuildingInstance { machines_produced: a.machines_produced, production_countdown: a.production_countdown, ..b })
                            &&& a.machines_produced >= b.machines_produced
                        } by {}
                    }
                }
                while j < definition.production.len()
                    invariant
                        j <= definition.production@.len(),
                        keys == keys_of(start.buildings@),
                        keys_of(state.buildings@) == keys,
                        day == start.campaign_day,
                        production_frame(start, *state),
                        production_frame(mid, *state),
                        i < keys.len(),
                        keys[i as int] == k,
                        key@ == k,
                        mid.buildings.contents().contains_key(k),
                        keys.no_duplicates() ==> mid.buildings.contents()[k].tier == tier,
                        keys.no_duplicates() ==> ticks(mid.buildings.contents()[k], faction_id@),
                        keys.no_duplicates() ==> forall|p: int|
                            0 <= p < keys.len() && p != i ==> (#[trigger] state.buildings.contents()[keys[p]]).production_countdown
                                == mid.buildings.contents()[keys[p]].production_countdown,
                        keys.no_duplicates() ==> hour_countdowns(mid.buildings.contents()[k], state.buildings.contents()[k], definition.production@, j as int),
                        forall|m: int| 0 <= m < events@.len() ==> production_event(#[trigger] events@[m], faction_id@),
                        keys.no_duplicates() ==> forall|m: int| 0 <= m < events@.len() ==> produced_for(#[trigger] events@[m], faction_id@),
                        keys.no_duplicates() ==> *definition == buildings.records()[start.buildings.contents()[k].def_id@],
                        keys.no_duplicates() ==> mid.buildings.contents()[k].production_countdown == start.buildings.contents()[k].production_countdown,
                        keys.no_duplicates() ==> start.buildings.contents()[k].tier == tier,
                        keys.no_duplicates() ==> pres.len() == events@.len() && posts.len() == events@.len(),
                        keys.no_duplicates() ==> forall|m: int|
                            0 <= m < events@.len() ==> carried(step_start(start, posts, m), #[trigger] pres[m]) && due_answered(
                                pres[m],
                                posts[m],
                                (hour_dues(start, keys, faction_id@, *buildings, i as int) + dues_of(
                                    k,
                                    start.buildings.contents()[k],
                                    definition.production@,
                                    j as int,
                                ))[m].0,
                                (hour_dues(start, keys, faction_id@, *buildings, i as int) + dues_of(
                                    k,
                                    start.buildings.contents()[k],
                                    definition.production@,
                                    j as int,
                                ))[m].1,
                                (hour_dues(start, keys, faction_id@, *buildings, i as int) + dues_of(
                                    k,
                                    start.buildings.contents()[k],
                                    definition.production@,
                                    j as int,
                                ))[m].2,
                                faction_id@,
                                *buildings,
                                *machines,
                                draw,
                                events@[m],
                            ),
                        keys.no_duplicates() ==> carried(step_start(start, posts, events@.len() as int), *state),
                        keys.no_duplicates() ==> ticks(start.buildings.contents()[k], faction_id@) && buildings.records().contains_key(start.buildings.contents()[k].def_id@),
                        keys.no_duplicates() ==> forall|x: Seq<char>|
                            #![trigger state.buildings.contents()[x]]
                            start.buildings.contents().contains_key(x) && !(ticks(start.buildings.contents()[x], faction_id@)
                                && buildings.records().contains_key(start.buildings.contents()[x].def_id@)) ==> state.buildings.contents()[x].machines_produced
                                == start.buildings.contents()[x].machines_produced,
                        keys.no_duplicates() ==> events@.len() == hour_dues(start, keys, faction_id@, *buildings, i as int).len() + dues_of(
                            k,
                            start.buildings.contents()[k],
                            definition.production@,
                            j as int,
                        ).len(),
                        keys.no_duplicates() ==> forall|m: int|
                            0 <= m < events@.len() ==> answers_due(
                                #[trigger] events@[m],
                                (hour_dues(start, keys, faction_id@, *buildings, i as int) + dues_of(
                                    k,
                                    start.buildings.contents()[k],
                                    definition.production@,
                                    j as int,
                                ))[m],
                                faction_id@,
                                day,
                            ),
                    decreases definition.production@.len() - j,
                {
                    let rule = &definition.production[j];
                    let human = match rule.output {
                        ProductionOutput::HumanRole { .. } => true,
                        _ => false,
                    };
                    let ghost pre = *state;
                    if !human && rule.interval_hours != 0 && tier >= rule.minimum_tier {
                        proof {
                            lemma_as_map_dom(pre.buildings@, k);
                        }
                        let remaining = match state.buildings.get(key.as_str()) {
                            Some(yard) => match countdown_lookup(&yard.production_countdown, j) {
                                Some(h) => h,
                                None => rule.interval_hours,
                            },
                            None => rule.interval_hours,
                        };
                        let due = remaining <= 1;
                        let next = if due { rule.interval_hours } else { remaining - 1 };
                        match state.buildings.get_mut(key.as_str()) {
                            Some(yard) => set_countdown(&mut yard.production_countdown, j, next),
                            None => {},
                        }
                        proof {
                            assert(carried(pre, *state)) by {
                                assert forall|x: Seq<char>| #[trigger] pre.buildings.contents().contains_key(x) implies state.buildings.contents()[x].machines_produced
                                    == pre.buildings.contents()[x].machines_produced by {
                                    if x != k {
                                        assert(state.buildings.contents()[x] == pre.buildings.contents()[x]);
                                    }
                                }
                                assert(state.buildings.contents().dom() =~= pre.buildings.contents().dom());
                            }
                            if keys.no_duplicates() {
                                lemma_carried_trans(step_start(start, posts, events@.len() as int), pre, *state);
                            }
                            lemma_countdown_frame(pre, *state, k);
                            lemma_frame_trans(start, pre, *state);
                            lemma_frame_trans(mid, pre, *state);
                            if keys.no_duplicates() {
                                assert forall|p: int| 0 <= p < keys.len() && p != i implies (#[trigger] state.buildings.contents()[keys[p]]).production_countdown
                                    == mid.buildings.contents()[keys[p]].production_countdown by {
                                    assert(keys[p] != keys[i as int]);
                                    assert(pre.buildings.contents()[keys[p]].production_countdown == mid.buildings.contents()[keys[p]].production_countdown);
                                }
                                let before_k = mid.buildings.contents()[k];
                                let now_k = state.buildings.contents()[k];
                                assert forall|x: int| #[trigger] countdown_of(now_k.production_countdown@, x) == if 0 <= x < j + 1 && x < definition.production@.len() && timed(definition.production@[x], before_k.tier) {
                                    Some(counted_down(countdown_of(before_k.production_countdown@, x), definition.production@[x].interval_hours))
                                } else {
                                    countdown_of(before_k.production_countdown@, x)
                                } by {
                                    assert(countdown_of(pre.buildings.contents()[k].production_countdown@, x) == if 0 <= x < j && x < definition.production@.len() && timed(definition.production@[x], before_k.tier) {
                                        Some(counted_down(countdown_of(before_k.production_countdown@, x), definition.production@[x].interval_hours))
                                    } else {
                                        countdown_of(before_k.production_countdown@, x)
                                    });
                                }
                            }
                        }
                        let ghost counted = *state;
                        if due {
                            match rule.output {
                                ProductionOutput::Machine { .. } => {
                                    let ordinal = match state.buildings.get(key.as_str()) {
                                        Some(yard) => yard.machines_produced,
                                        None => 0,
                                    };
                                    let instance_id = machine_instance_id(key.as_str(), j, ordinal, draw);
                                    match state.produce_machine(instance_id.as_str(), key.as_str(), j, buildings, machines) {
                                        Ok((_machine, event)) => {
                                            let ghost made = (_machine, event);
                                            proof {
                                                assert(machine_outcome(
                                                    counted,
                                                    *state,
                                                    machine_instance_id_of(k, (j as int) as nat, counted.buildings.contents()[k].machines_produced as nat, draw as nat),
                                                    k,
                                                    j as int,
                                                    *buildings,
                                                    *machines,
                                                    Ok(made),
                                                ));
                                                lemma_produced_frame(
                                                    counted,
                                                    *state,
                                                    k,
                                                    instance_id@,
                                                    _machine,
                                                    counted.buildings.contents()[k].faction_id@,
                                                    rule_of(counted, k, *buildings, j as int).cost@,
                                                );
                                            }
                                            events.push(event);
                                            proof {
                                                assert(rule.output is Machine);
                                                assert(events@[events@.len() - 1] == made.1);
                                                lemma_machine_answered(counted, *state, k, j as int, *rule, faction_id@, *buildings, *machines, draw, events@[events@.len() - 1], Ok(made));
                                                assert(due_answered(
                                                    counted,
                                                    *state,
                                                    k,
                                                    j as int,
                                                    *rule,
                                                    faction_id@,
                                                    *buildings,
                                                    *machines,
                                                    draw,
                                                    events@[events@.len() - 1],
                                                ));
                                            }
                                        },
                                        Err(error) => {
                                            proof {
                                                assert(machine_outcome(
                                                    counted,
                                                    *state,
                                                    machine_instance_id_of(k, (j as int) as nat, counted.buildings.contents()[k].machines_produced as nat, draw as nat),
                                                    k,
                                                    j as int,
                                                    *buildings,
                                                    *machines,
                                                    Err(error),
                                                ));
                                            }
                                            events.push(StrategicEvent::ProductionSkipped {
                                                faction_id: owned(faction_id),
                                                building_instance_id: key.clone(),
                                                rule_id: rule.id.clone(),
                                                reason: ProductionSkipReason::of(&error),
                                                day,
                                            });
                                            proof {
                                                assert(skipped_for(events@[events@.len() - 1], faction_id@, k, *rule, error, counted.campaign_day));
                                                lemma_machine_answered(counted, *state, k, j as int, *rule, faction_id@, *buildings, *machines, draw, events@[events@.len() - 1], Err(error));
                                                assert(due_answered(
                                                    counted,
                                                    *state,
                                                    k,
                                                    j as int,
                                                    *rule,
                                                    faction_id@,
                                                    *buildings,
                                                    *machines,
                                                    draw,
                                                    events@[events@.len() - 1],
                                                ));
                                            }
                                        },
                                    }
                                },
                                _ => {
                                    match charge_production_cost(state, faction_id, &rule.cost) {
                                        Ok(()) => {
                                            proof {
                                                lemma_charge_frame(counted, *state, faction_id@, rule.cost@);
                                            }
                                            events.push(StrategicEvent::ProductionYielded {
                                                faction_id: owned(faction_id),
                                                building_instance_id: key.clone(),
                                                rule_id: rule.id.clone(),
                                                output_key: rule.output_key.clone(),
                                                amount: rule.amount,
                                                day,
                                            });
                                            proof {
                                                assert(charge_outcome(counted, *state, faction_id@, rule.cost@, Ok(())));
                                            }
                                            proof {
                                                assert(due_answered(
                                                    counted,
                                                    *state,
                                                    k,
                                                    j as int,
                                                    *rule,
                                                    faction_id@,
                                                    *buildings,
                                                    *machines,
                                                    draw,
                                                    events@[events@.len() - 1],
                                                ));
                                            }
                                        },
                                        Err(error) => {
                                            proof {
                                                assert(charge_outcome(counted, *state, faction_id@, rule.cost@, Err(error)));
                                            }
                                            events.push(StrategicEvent::ProductionSkipped {
                                                faction_id: owned(faction_id),
                                                building_instance_id: key.clone(),
                                                rule_id: rule.id.clone(),
                                                reason: ProductionSkipReason::of(&error),
                                                day,
                                            });
                                            proof {
                                                assert(due_answered(
                                                    counted,
                                                    *state,
                                                    k,
                                                    j as int,
                                                    *rule,
                                                    faction_id@,
                                                    *buildings,
                                                    *machines,
                                                    draw,
                                                    events@[events@.len() - 1],
                                                ));
                                            }
                                        },
                                    }
                                },
                            }
                            proof {
                                lemma_frame_trans(start, counted, *state);
                                lemma_frame_trans(mid, counted, *state);
                                if keys.no_duplicates() {
                                    let sb = start.buildings.contents()[k];
                                    let rules = definition.production@;
                                    let d0 = hour_dues(start, keys, faction_id@, *buildings, i as int);
                                    let before_dues = d0 + dues_of(k, sb, rules, j as int);
                                    let after_dues = d0 + dues_of(k, sb, rules, j + 1);
                                    let n = events@.len() - 1;
                                    assert(comes_due(sb, rules[j as int], j as int));
                                    assert(dues_of(k, sb, rules, j + 1) == dues_of(k, sb, rules, j as int).push((k, j as int, rules[j as int])));
                                    assert(after_dues =~= before_dues.push((k, j as int, rules[j as int])));
                                    let np = pres.push(counted);
                                    let nq = posts.push(*state);
                                    assert forall|m: int|
                                        0 <= m < events@.len() implies carried(step_start(start, nq, m), #[trigger] np[m]) && due_answered(
                                        np[m],
                                        nq[m],
                                        after_dues[m].0,
                                        after_dues[m].1,
                                        after_dues[m].2,
                                        faction_id@,
                                        *buildings,
                                        *machines,
                                        draw,
                                        events@[m],
                                    ) by {
                                        if m < n {
                                            assert(np[m] == pres[m] && nq[m] == posts[m]);
                                            assert(step_start(start, nq, m) == step_start(start, posts, m));
                                            assert(after_dues[m] == before_dues[m]);
                                        } else {
                                            assert(np[m] == counted && nq[m] == *state);
                                            assert(step_start(start, nq, m) == step_start(start, posts, n));
                                            assert(after_dues[m] == (k, j as int, rules[j as int]));
                                        }
                                    }
                                    assert(step_start(start, nq, events@.len() as int) == *state);
                                    pres = np;
                                    posts = nq;
                                }
                            }
                        }
                    } else {
                        proof {
                            if keys.no_duplicates() {
                                let before_k = mid.buildings.contents()[k];
                                let now_k = state.buildings.contents()[k];
                                assert forall|x: int| #[trigger] countdown_of(now_k.production_countdown@, x) == if 0 <= x < j + 1 && x < definition.production@.len() && timed(definition.production@[x], before_k.tier) {
                                    Some(counted_down(countdown_of(before_k.production_countdown@, x), definition.production@[x].interval_hours))
                                } else {
                                    countdown_of(before_k.production_countdown@, x)
                                } by {}
                            }
                        }
                    }
                    j = j + 1;
                }
                proof {
                    if keys.no_duplicates() {
                        assert forall|p: int| 0 <= p < keys.len() implies {
                            let b = start.buildings.contents()[#[trigger] keys[p]];
                            let a = state.buildings.contents()[keys[p]];
                            if p < i + 1 {
                                hour_of_production(b, a, faction_id@, *buildings)
                            } else {
                                a.production_countdown == b.production_countdown
                            }
                        } by {
                            let b = start.buildings.contents()[keys[p]];
                            let a = state.buildings.contents()[keys[p]];
                            let m = mid.buildings.contents()[keys[p]];
                            if p == i {
                                assert(m.production_countdown == b.production_countdown);
                                assert(m.tier == b.tier);
                                assert forall|x: int| #[trigger] countdown_of(a.production_countdown@, x) == if 0 <= x < definition.production@.len() && x < definition.production@.len() && timed(definition.production@[x], b.tier) {
                                    Some(counted_down(countdown_of(b.production_countdown@, x), definition.production@[x].interval_hours))
                                } else {
                                    countdown_of(b.production_countdown@, x)
                                } by {}
                            } else {
                                assert(a.production_countdown == m.production_countdown);
                            }
                        }
                    }
                }
            },
            None => {
                proof {
                    if keys.no_duplicates() {
                        assert forall|p: int| 0 <= p < keys.len() implies {
                            let b = start.buildings.contents()[#[trigger] keys[p]];
                            let a = state.buildings.contents()[keys[p]];
                            if p < i + 1 {
                                hour_of_production(b, a, faction_id@, *buildings)
                            } else {
                                a.production_countdown == b.production_countdown
                            }
                        } by {}
                    }
                }
            },
        }
        i = i + 1;
    }
    proof {
        if keys.no_duplicates() {
            assert forall|k: Seq<char>| start.buildings.contents().contains_key(k) implies hour_of_production(
                start.buildings.contents()[k],
                #[trigger] state.buildings.contents()[k],
                faction_id@,
                *buildings,
            ) by {
                lemma_as_map_dom(start.buildings@, k);
                let p = choose|p: int| 0 <= p < start.buildings@.len() && #[trigger] start.buildings@[p].0 == k;
                assert(keys[p] == k);
            }
        }
    }
    events
}

/// The countdown entry of one rule, read without changing anything.
fn countdown_lookup(c: &Vec<(usize, u32)>, rule_index: usize) -> (r: Option<u32>)
    ensures
        r == countdown_of(c@, rule_index as int),
{
    let mut i: usize = 0;
    proof {
        assert(c@.skip(0) =~= c@);
    }
    while i < c.len()
        invariant
            i <= c@.len(),
            countdown_of(c@, rule_index as int) == countdown_of(c@.skip(i as int), rule_index as int),
        decreases c@.len() - i,
    {
        if c[i].0 == rule_index {
            return Some(c[i].1);
        }
        proof {
            assert(c@.skip(i as int).drop_first() =~= c@.skip(i + 1));
        }
        i = i + 1;
    }
    proof {
        assert(c@.skip(i as int) =~= Seq::<(usize, u32)>::empty());
    }
    None
}

} // verus!
