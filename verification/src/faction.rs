//! What a faction *is* (authored, [`FactionDefinition`]) and what a faction
//! *has right now* (saved, [`FactionState`]).
//!
//! Factions have concept keys, never proper names: the identity of a faction is
//! one of six [`ConceptKey`]s and its stable ID is `faction.<concept_key>`.

use vstd::prelude::*;

use crate::elimination::RecoveryLink;
use crate::expedition::{is_stable_id, require_stable_id, ExpeditionError};
use crate::keyed::{StrMap, StrSet};
use crate::text::{concat, str_eq};
use crate::utility::Goal;

verus! {

/// The prefix every faction's stable ID carries.
pub const FACTION_ID_PREFIX: &'static str = "faction.";

/// The six faction concepts: five established autonomous factions plus the
/// one Captain Michael founds.
#[derive(Clone, Copy, Debug, PartialEq, Eq, PartialOrd, Ord, Structural)]
pub enum ConceptKey {
    FoxPeople,
    ColonialPowers,
    Pirates,
    Elves,
    Cthulhu,
    Michael,
}

impl ConceptKey {
    /// Every concept, in the design's own order.
    pub const ALL: [ConceptKey; 6] = [
        ConceptKey::FoxPeople,
        ConceptKey::ColonialPowers,
        ConceptKey::Pirates,
        ConceptKey::Elves,
        ConceptKey::Cthulhu,
        ConceptKey::Michael,
    ];

    /// The key as content spells it.
    pub open spec fn key(self) -> Seq<char> {
        match self {
            ConceptKey::FoxPeople => "fox_people"@,
            ConceptKey::ColonialPowers => "colonial_powers"@,
            ConceptKey::Pirates => "pirates"@,
            ConceptKey::Elves => "elves"@,
            ConceptKey::Cthulhu => "cthulhu"@,
            ConceptKey::Michael => "michael"@,
        }
    }

    /// `faction.<key>`.
    pub open spec fn id(self) -> Seq<char> {
        FACTION_ID_PREFIX@ + self.key()
    }

    /// The authored key exactly as it appears in content and in the stable ID.
    pub fn as_key(self) -> (r: &'static str)
        ensures
            r@ == self.key(),
    {
        match self {
            ConceptKey::FoxPeople => "fox_people",
            ConceptKey::ColonialPowers => "colonial_powers",
            ConceptKey::Pirates => "pirates",
            ConceptKey::Elves => "elves",
            ConceptKey::Cthulhu => "cthulhu",
            ConceptKey::Michael => "michael",
        }
    }

    /// The inverse of `as_key`: `None` for anything outside the six.
    pub fn from_key(key: &str) -> (r: Option<Self>)
        ensures
            match r {
                Some(c) => c.key() == key@,
                None => forall|c: ConceptKey| #[trigger] c.key() != key@,
            },
    {
        if str_eq(key, "fox_people") {
            Some(ConceptKey::FoxPeople)
        } else if str_eq(key, "colonial_powers") {
            Some(ConceptKey::ColonialPowers)
        } else if str_eq(key, "pirates") {
            Some(ConceptKey::Pirates)
        } else if str_eq(key, "elves") {
            Some(ConceptKey::Elves)
        } else if str_eq(key, "cthulhu") {
            Some(ConceptKey::Cthulhu)
        } else if str_eq(key, "michael") {
            Some(ConceptKey::Michael)
        } else {
            assert forall|c: ConceptKey| #[trigger] c.key() != key@ by {
                match c {
                    ConceptKey::FoxPeople => {},
                    ConceptKey::ColonialPowers => {},
                    ConceptKey::Pirates => {},
                    ConceptKey::Elves => {},
                    ConceptKey::Cthulhu => {},
                    ConceptKey::Michael => {},
                }
            }
            None
        }
    }

    /// The stable ID this concept must be authored under.
    pub fn faction_id(self) -> (r: String)
        ensures
            r@ == self.id(),
    {
        concat(FACTION_ID_PREFIX, self.as_key())
    }
}

/// Two concepts never share a key, so never share an ID.
pub proof fn lemma_concept_keys_distinct(a: ConceptKey, b: ConceptKey)
    ensures
        a.key() == b.key() <==> a == b,
        a.id() == b.id() <==> a == b,
{
    reveal_strlit("fox_people");
    reveal_strlit("colonial_powers");
    reveal_strlit("pirates");
    reveal_strlit("elves");
    reveal_strlit("cthulhu");
    reveal_strlit("michael");
    if a.id() == b.id() {
        assert(a.key() =~= a.id().skip(FACTION_ID_PREFIX@.len() as int));
        assert(b.key() =~= b.id().skip(FACTION_ID_PREFIX@.len() as int));
    }
    if a != b {
        assert(a.key()[0] != b.key()[0] || a.key().len() != b.key().len() || a.key()[1] != b.key()[1]);
    }
}

impl Default for ConceptKey {
    /// Only so records can be built field by field; a record always states
    /// its own key, and `validate` refuses one whose ID disagrees.
    fn default() -> (r: Self)
        ensures
            r == ConceptKey::Michael,
    {
        ConceptKey::Michael
    }
}

/// What went wrong loading or registering a faction record.
#[derive(Clone, Debug, PartialEq)]
pub enum FactionError {
    /// Not a stable ID at all.
    MalformedId(ExpeditionError),
    /// Well-shaped, but not the `faction.<concept_key>` this record demands.
    IdDoesNotMatchConceptKey { found: String, expected: String },
    /// Two records claim the same faction.
    DuplicateFaction { id: String },
    /// A cross-reference names a faction no record defines.
    UnknownFaction { id: String },
}

/// Where a faction stands on the board.
#[derive(Clone, Copy, Debug, PartialEq, Eq, PartialOrd, Ord, Structural)]
pub enum StrategicState {
    Desperate,
    Recovering,
    Contesting,
    Advantaged,
    Closing,
}

impl Default for StrategicState {
    /// The neutral position, neither losing nor winning.
    fn default() -> (r: Self)
        ensures
            r == StrategicState::Contesting,
    {
        StrategicState::Contesting
    }
}

/// One faction's live half of a pairwise relationship. Zero on every axis is
/// "no history yet".
#[derive(Clone, Copy, Debug, Default, PartialEq, Eq, Structural)]
pub struct Relationship {
    pub trust: i16,
    pub fear: i16,
    pub hatred: i16,
    pub grievance: i16,
    pub dependence: i16,
    pub trade_value: i16,
    pub territorial_conflict: i16,
    pub ideological_incompatibility: i16,
    pub recent_aid: i16,
    pub recent_aggression: i16,
    pub treaty_state: i16,
    pub known_betrayal: i16,
    pub perceived_strength: i16,
    pub perceived_opportunity: i16,
}

impl Relationship {
    /// Zero on every axis.
    pub open spec fn zero() -> Relationship {
        Relationship {
            trust: 0,
            fear: 0,
            hatred: 0,
            grievance: 0,
            dependence: 0,
            trade_value: 0,
            territorial_conflict: 0,
            ideological_incompatibility: 0,
            recent_aid: 0,
            recent_aggression: 0,
            treaty_state: 0,
            known_betrayal: 0,
            perceived_strength: 0,
            perceived_opportunity: 0,
        }
    }

    /// No history with anyone.
    pub fn none() -> (r: Relationship)
        ensures
            r == Relationship::zero(),
    {
        Relationship {
            trust: 0,
            fear: 0,
            hatred: 0,
            grievance: 0,
            dependence: 0,
            trade_value: 0,
            territorial_conflict: 0,
            ideological_incompatibility: 0,
            recent_aid: 0,
            recent_aggression: 0,
            treaty_state: 0,
            known_betrayal: 0,
            perceived_strength: 0,
            perceived_opportunity: 0,
        }
    }
}

/// A faction's authored design, field for field as the design lists it.
/// Everything Provisional or Open is stored as authored text or an open-keyed
/// map; nothing here acts on it.
#[derive(Clone, Debug, Default, PartialEq, Eq)]
pub struct FactionDefinition {
    pub id: String,
    pub concept_key: ConceptKey,
    pub doctrine: String,
    pub resource_priorities: StrMap<i16>,
    pub building_priorities: StrMap<i16>,
    pub recruitment_or_population_rules: String,
    pub movement_preferences: StrMap<i16>,
    pub relationship_tendencies: StrMap<Relationship>,
    pub board_position_behavior: Vec<(StrategicState, String)>,
    pub victory_conditions: Vec<String>,
    pub recovery_rules: String,
    pub elimination_rules: String,
    pub weather_preferences: StrMap<i16>,
    pub terrain_influence: StrMap<i16>,
    pub corruption_interactions: String,
    pub building_kit: StrSet,
    pub actor_kit: StrSet,
    pub dungeon_grammar: String,
    pub loot_grammar: String,
}

/// Whether a faction record may enter the simulation: its ID is a stable ID
/// and exactly `faction.<concept_key>` for its own concept.
pub open spec fn definition_valid(d: FactionDefinition) -> bool {
    is_stable_id(d.id@) && d.id@ == d.concept_key.id()
}

/// What checking a record answers.
pub open spec fn faction_checked(definition: FactionDefinition, r: Result<(), FactionError>) -> bool {
    &&& (r is Ok <==> definition_valid(definition))
    &&& (!is_stable_id(definition.id@) ==> (r matches Err(FactionError::MalformedId(e))
        && crate::expedition::invalid_id(e, "faction.id", definition.id@)))
    &&& (is_stable_id(definition.id@) && definition.id@ != definition.concept_key.id() ==> (r matches Err(
        FactionError::IdDoesNotMatchConceptKey { found, expected },
    ) && found@ == definition.id@ && expected@ == definition.concept_key.id()))
}

impl FactionDefinition {
    /// The one gate between authored content and the simulation.
    pub fn validate(&self) -> (r: Result<(), FactionError>)
        ensures
            faction_checked(*self, r),
    {
        match require_stable_id("faction.id", self.id.as_str()) {
            Err(e) => return Err(FactionError::MalformedId(e)),
            Ok(()) => {},
        }
        let expected = self.concept_key.faction_id();
        if !str_eq(self.id.as_str(), expected.as_str()) {
            return Err(FactionError::IdDoesNotMatchConceptKey { found: self.id.clone(), expected });
        }
        Ok(())
    }
}

/// The loaded faction records, keyed by `faction.<concept_key>`.
#[derive(Clone, Debug, Default, PartialEq, Eq)]
pub struct FactionDefinitions {
    by_id: StrMap<FactionDefinition>,
}

impl FactionDefinitions {
    /// The records, by ID.
    pub closed spec fn records(&self) -> Map<Seq<char>, FactionDefinition> {
        self.by_id.contents()
    }

    /// The IDs in ascending order.
    pub closed spec fn order(&self) -> Seq<(Seq<char>, FactionDefinition)> {
        self.by_id@
    }

    /// The registry's walk holds its records and nothing else: every entry
    /// is a record under its key, every record has an entry, and, the keys
    /// ascending, no key comes twice.
    pub proof fn lemma_order_records(&self)
        requires
            crate::keyed::ascending(crate::keyed::keys_of(self.order())),
        ensures
            crate::keyed::keys_of(self.order()).no_duplicates(),
            forall|i: int|
                #![trigger self.order()[i]]
                0 <= i < self.order().len() ==> self.records().contains_key(self.order()[i].0) && self.records()[self.order()[i].0]
                    == self.order()[i].1,
            forall|k: Seq<char>| self.records().contains_key(k) ==> crate::keyed::keys_of(self.order()).contains(k),
    {
        crate::keyed::lemma_ascending_unique(crate::keyed::keys_of(self.order()));
        crate::keyed::lemma_entries_map(self.by_id@);
    }

    pub fn new() -> (r: Self)
        ensures
            r.records() == Map::<Seq<char>, FactionDefinition>::empty(),
            r.order().len() == 0,
            crate::keyed::ascending(crate::keyed::keys_of(r.order())),
    {
        FactionDefinitions { by_id: StrMap::new() }
    }

    /// Validate a record and admit it. A second record for a concept is
    /// refused rather than overwriting the first.
    pub fn insert(&mut self, definition: FactionDefinition) -> (r: Result<(), FactionError>)
        ensures
            !definition_valid(definition) ==> faction_checked(definition, r),
            r is Ok ==> final(self).order().len() == old(self).order().len() + 1,
            crate::keyed::ascending(crate::keyed::keys_of(old(self).order())) ==> crate::keyed::ascending(crate::keyed::keys_of(final(self).order())),
            r is Ok <==> definition_valid(definition) && !old(self).records().contains_key(definition.id@),
            r is Ok ==> final(self).records() == old(self).records().insert(definition.id@, definition),
            r is Err ==> *final(self) == *old(self),
            definition_valid(definition) && old(self).records().contains_key(definition.id@) ==> (r matches Err(
                FactionError::DuplicateFaction { id },
            ) && id@ == definition.id@),
            !definition_valid(definition) ==> (r matches Err(e) && !(e is DuplicateFaction)),
    {
        match definition.validate() {
            Err(e) => {
                assert(!(e is DuplicateFaction));
                return Err(e);
            },
            Ok(()) => {},
        }
        if self.by_id.contains_key(definition.id.as_str()) {
            return Err(FactionError::DuplicateFaction { id: definition.id.clone() });
        }
        let key = definition.id.clone();
        self.by_id.insert(key, definition);
        Ok(())
    }

    pub fn get(&self, faction_id: &str) -> (r: Option<&FactionDefinition>)
        ensures
            match r {
                Some(d) => self.records().contains_key(faction_id@) && *d == self.records()[faction_id@],
                None => !self.records().contains_key(faction_id@),
            },
    {
        self.by_id.get(faction_id)
    }

    pub fn by_concept(&self, concept: ConceptKey) -> (r: Option<&FactionDefinition>)
        ensures
            match r {
                Some(d) => self.records().contains_key(concept.id()) && *d == self.records()[concept.id()],
                None => !self.records().contains_key(concept.id()),
            },
    {
        let id = concept.faction_id();
        self.by_id.get(id.as_str())
    }

    /// Every loaded faction ID, ascending.
    pub fn ids(&self) -> (r: Vec<String>)
        ensures
            r@.len() == self.order().len(),
            forall|i: int| 0 <= i < r@.len() ==> #[trigger] r@[i]@ == self.order()[i].0,
    {
        self.by_id.keys()
    }

    pub fn len(&self) -> (n: usize)
        ensures
            n == self.order().len(),
    {
        self.by_id.len()
    }

    pub fn is_empty(&self) -> (r: bool)
        ensures
            r == (self.order().len() == 0),
    {
        self.by_id.is_empty()
    }

    /// The ID resolves to a loaded record.
    pub fn require_known(&self, faction_id: &str) -> (r: Result<(), FactionError>)
        ensures
            r is Ok <==> self.records().contains_key(faction_id@),
            r matches Err(e) ==> (e matches FactionError::UnknownFaction { id } && id@ == faction_id@),
    {
        if self.by_id.contains_key(faction_id) {
            Ok(())
        } else {
            Err(FactionError::UnknownFaction { id: faction_id.to_owned() })
        }
    }
}

/// One faction's mutable half: what it holds, where it stands, whether it is
/// still playing, and what it thinks of everyone else.
#[derive(Clone, Debug, Default, PartialEq, Eq)]
pub struct FactionState {
    /// Open-keyed strategic stockpile.
    pub resources: StrMap<u32>,
    pub strategic_state: StrategicState,
    /// Eliminated factions stay in the map; removal is a flag, never a delete.
    pub eliminated: bool,
    /// What this faction holds about each other faction, by faction ID.
    pub relationships: StrMap<Relationship>,
    /// What this faction is trying to do right now, best first.
    pub current_goals: Vec<Goal>,
    /// The recovery links it held at the last reading, in the links' order.
    pub recovery_links_held: Vec<RecoveryLink>,
    /// Whether it has ever held any link at all.
    pub has_ever_held: bool,
}

impl FactionState {
    /// A faction as it enters the simulation: nothing stockpiled, no history
    /// with anyone, contesting the board.
    pub fn new() -> (r: Self)
        ensures
            r.resources.contents() == Map::<Seq<char>, u32>::empty(),
            r.resources@.len() == 0,
            r.strategic_state == StrategicState::Contesting,
            !r.eliminated,
            r.relationships@.len() == 0,
            r.current_goals@.len() == 0,
            r.recovery_links_held@.len() == 0,
            !r.has_ever_held,
    {
        FactionState {
            resources: StrMap::new(),
            strategic_state: StrategicState::Contesting,
            eliminated: false,
            relationships: StrMap::new(),
            current_goals: Vec::new(),
            recovery_links_held: Vec::new(),
            has_ever_held: false,
        }
    }

    /// What this faction holds about `other_faction_id`, or the zeroed "no
    /// history" view. Reading never inserts.
    pub fn relationship_toward(&self, other_faction_id: &str) -> (r: Relationship)
        ensures
            r == if self.relationships.contents().contains_key(other_faction_id@) {
                self.relationships.contents()[other_faction_id@]
            } else {
                Relationship::zero()
            },
    {
        match self.relationships.get(other_faction_id) {
            Some(r) => *r,
            None => Relationship::none(),
        }
    }
}

} // verus!
