//! The player's high-weight request to a faction, with its plain-language
//! explanation produced before confirmation. A directive persists until one of
//! five endings, and there is one writer of its state.

use vstd::prelude::*;

use crate::expedition::{invalid_id, is_stable_id, require_stable_id, ExpeditionError, ExpeditionState};
use crate::faction::FACTION_ID_PREFIX;
use crate::geography::{connects, has_location, joined, risk_now, Geography, RouteOption};
use crate::keyed::{keys_of, lemma_as_map_dom, lemma_as_map_value, StrMap, StrSet};
use crate::text::{
    decimal, is_blank, lemma_seq_lt_total, lemma_seq_lt_transitive, owned, push_char, push_decimal, push_str, seq_lt, seq_starts_with, starts_with, str_eq, trim_text,
    trimmed,
};
use crate::utility::{intent_goal_row, intent_row, BoardView};

verus! {

/// The prefix every directive ID carries.
pub const DIRECTIVE_ID_PREFIX: &'static str = "directive.";

/// What the player asks a faction to do.
#[derive(Clone, Copy, Debug, PartialEq, Eq, PartialOrd, Ord, Hash, Structural)]
pub enum Intent {
    Protect,
    Supply,
    Develop,
    Expand,
    Pressure,
    Attack,
    Support,
    Investigate,
    Avoid,
    Withdraw,
}

impl Default for Intent {
    fn default() -> (r: Self)
        ensures
            r == Intent::Protect,
    {
        Intent::Protect
    }
}

impl Intent {
    pub const ALL: [Intent; 10] = [
        Intent::Protect,
        Intent::Supply,
        Intent::Develop,
        Intent::Expand,
        Intent::Pressure,
        Intent::Attack,
        Intent::Support,
        Intent::Investigate,
        Intent::Avoid,
        Intent::Withdraw,
    ];

    pub open spec fn word(self) -> Seq<char> {
        match self {
            Intent::Protect => "protect"@,
            Intent::Supply => "supply"@,
            Intent::Develop => "develop"@,
            Intent::Expand => "expand"@,
            Intent::Pressure => "pressure"@,
            Intent::Attack => "attack"@,
            Intent::Support => "support"@,
            Intent::Investigate => "investigate"@,
            Intent::Avoid => "avoid"@,
            Intent::Withdraw => "withdraw"@,
        }
    }

    pub fn as_str(self) -> (r: &'static str)
        ensures
            r@ == self.word(),
    {
        match self {
            Intent::Protect => "protect",
            Intent::Supply => "supply",
            Intent::Develop => "develop",
            Intent::Expand => "expand",
            Intent::Pressure => "pressure",
            Intent::Attack => "attack",
            Intent::Support => "support",
            Intent::Investigate => "investigate",
            Intent::Avoid => "avoid",
            Intent::Withdraw => "withdraw",
        }
    }

    /// What the intent asks for, in the words the explanation uses.
    pub open spec fn goal_words(self) -> Seq<char> {
        match self {
            Intent::Protect => "make what it already holds defensible"@,
            Intent::Supply => "build and produce rather than reach for more ground"@,
            Intent::Develop => "build and produce rather than reach for more ground"@,
            Intent::Expand => "take unheld ground"@,
            Intent::Pressure => "push on a rival's ground, short of a committed attack"@,
            Intent::Attack => "push on a rival's ground and take it"@,
            Intent::Support => "hold the line and produce for whoever is holding it"@,
            Intent::Investigate => "nothing yet: the faction has no way to spend an hour on finding out, so it will keep this in mind and carry on as it was"@,
            Intent::Avoid => "leave that ground alone -- neither take it nor push on it"@,
            Intent::Withdraw => "give that ground up rather than spend anything holding it"@,
        }
    }

    /// What the faction will try to do, in words.
    pub fn explained_goal(self) -> (r: &'static str)
        ensures
            r@ == self.goal_words(),
    {
        match self {
            Intent::Protect => "make what it already holds defensible",
            Intent::Supply => "build and produce rather than reach for more ground",
            Intent::Develop => "build and produce rather than reach for more ground",
            Intent::Expand => "take unheld ground",
            Intent::Pressure => "push on a rival's ground, short of a committed attack",
            Intent::Attack => "push on a rival's ground and take it",
            Intent::Support => "hold the line and produce for whoever is holding it",
            Intent::Investigate => "nothing yet: the faction has no way to spend an hour on finding out, so it will keep this in mind and carry on as it was",
            Intent::Avoid => "leave that ground alone -- neither take it nor push on it",
            Intent::Withdraw => "give that ground up rather than spend anything holding it",
        }
    }
}

/// Where a directive stands: active, or one of the five endings.
#[derive(Clone, Copy, Debug, PartialEq, Eq, PartialOrd, Ord, Hash, Structural)]
pub enum DirectiveStatus {
    Active,
    Completed,
    Cancelled,
    Superseded,
    Impossible,
    Returned,
}

impl Default for DirectiveStatus {
    fn default() -> (r: Self)
        ensures
            r == DirectiveStatus::Active,
    {
        DirectiveStatus::Active
    }
}

impl DirectiveStatus {
    pub const TERMINAL: [DirectiveStatus; 5] = [
        DirectiveStatus::Completed,
        DirectiveStatus::Cancelled,
        DirectiveStatus::Superseded,
        DirectiveStatus::Impossible,
        DirectiveStatus::Returned,
    ];

    /// Every status but `Active` is an ending.
    pub open spec fn ended(self) -> bool {
        self != DirectiveStatus::Active
    }

    pub fn is_terminal(self) -> (r: bool)
        ensures
            r == self.ended(),
    {
        match self {
            DirectiveStatus::Active => false,
            _ => true,
        }
    }

    pub open spec fn word(self) -> Seq<char> {
        match self {
            DirectiveStatus::Active => "active"@,
            DirectiveStatus::Completed => "completed"@,
            DirectiveStatus::Cancelled => "cancelled"@,
            DirectiveStatus::Superseded => "superseded"@,
            DirectiveStatus::Impossible => "impossible"@,
            DirectiveStatus::Returned => "returned"@,
        }
    }

    pub fn as_str(self) -> (r: &'static str)
        ensures
            r@ == self.word(),
    {
        match self {
            DirectiveStatus::Active => "active",
            DirectiveStatus::Completed => "completed",
            DirectiveStatus::Cancelled => "cancelled",
            DirectiveStatus::Superseded => "superseded",
            DirectiveStatus::Impossible => "impossible",
            DirectiveStatus::Returned => "returned",
        }
    }
}

/// How loudly a directive speaks in the faction's hour.
#[derive(Clone, Copy, Debug, PartialEq, Eq, PartialOrd, Ord, Hash, Structural)]
pub enum Priority {
    Routine,
    Standing,
    Urgent,
}

impl Default for Priority {
    fn default() -> (r: Self)
        ensures
            r == Priority::Standing,
    {
        Priority::Standing
    }
}

impl Priority {
    pub open spec fn percent(self) -> i32 {
        match self {
            Priority::Routine => 50,
            Priority::Standing => 100,
            Priority::Urgent => 200,
        }
    }

    /// The weight of the directive's pull, in percent.
    pub fn signal_percent(self) -> (r: i32)
        ensures
            r == self.percent(),
    {
        match self {
            Priority::Routine => 50,
            Priority::Standing => 100,
            Priority::Urgent => 200,
        }
    }

    pub open spec fn word(self) -> Seq<char> {
        match self {
            Priority::Routine => "routine"@,
            Priority::Standing => "standing"@,
            Priority::Urgent => "urgent"@,
        }
    }

    pub fn as_str(self) -> (r: &'static str)
        ensures
            r@ == self.word(),
    {
        match self {
            Priority::Routine => "routine",
            Priority::Standing => "standing",
            Priority::Urgent => "urgent",
        }
    }
}

/// Whether the faction may spend its reserve on a directive.
#[derive(Clone, Copy, Debug, PartialEq, Eq, PartialOrd, Ord, Hash, Structural)]
pub enum ReservePolicy {
    Hold,
    Commit,
}

impl Default for ReservePolicy {
    fn default() -> (r: Self)
        ensures
            r == ReservePolicy::Hold,
    {
        ReservePolicy::Hold
    }
}

impl ReservePolicy {
    pub open spec fn word(self) -> Seq<char> {
        match self {
            ReservePolicy::Hold => "hold"@,
            ReservePolicy::Commit => "commit"@,
        }
    }

    pub fn as_str(self) -> (r: &'static str)
        ensures
            r@ == self.word(),
    {
        match self {
            ReservePolicy::Hold => "hold",
            ReservePolicy::Commit => "commit",
        }
    }
}

/// What the player was shown before confirming a directive.
#[derive(Clone, Debug, Default, PartialEq, Eq)]
pub struct Explanation {
    pub goal: String,
    pub why_target: String,
    pub resources: String,
    pub blockers: Vec<String>,
    pub withdrawal_conditions: String,
    pub party_could_help: bool,
}

/// The player's request to one faction.
#[derive(Clone, Debug, Default, PartialEq, Eq)]
pub struct StrategicDirective {
    pub id: String,
    pub faction_id: String,
    pub issuing_character_id: String,
    pub intent: Intent,
    pub target_node_id: Option<String>,
    pub target_region_id: Option<String>,
    pub target_faction_id: Option<String>,
    pub priority: Priority,
    /// The most dangerous road the player accepts, on the risk scale.
    pub acceptable_risk: u8,
    /// What the directive authorises spending, by resource key.
    pub resource_limit: StrMap<u32>,
    pub reserve_policy: ReservePolicy,
    pub completion_condition: String,
    pub withdrawal_condition: String,
    /// Written by `issue_directive` and `mark_directive` only.
    pub state: DirectiveStatus,
    /// The explanation the player saw, kept with the directive.
    pub explanation: Option<Explanation>,
    pub blocking_reasons: Vec<String>,
}

/// What went wrong issuing or ending a directive.
#[derive(Clone, Debug, PartialEq)]
pub enum DirectiveError {
    Id(ExpeditionError),
    UnknownFaction { faction_id: String },
    UnknownCell { cell_id: String },
    AlreadyStanding { directive_id: String, existing_id: String },
    DuplicateDirective { directive_id: String },
    UnknownDirective { directive_id: String },
    AlreadyEnded { directive_id: String, state: DirectiveStatus },
    NotAnEnding { state: DirectiveStatus },
}

/// An optional ID field is absent or a stable ID.
pub open spec fn opt_id_ok(id: Option<String>) -> bool {
    match id {
        Some(v) => is_stable_id(v@),
        None => true,
    }
}

/// Whether a directive is well-formed.
pub open spec fn directive_valid(d: StrategicDirective) -> bool {
    &&& is_stable_id(d.id@)
    &&& seq_starts_with(d.id@, DIRECTIVE_ID_PREFIX@)
    &&& is_stable_id(d.faction_id@)
    &&& seq_starts_with(d.faction_id@, FACTION_ID_PREFIX@)
    &&& (d.issuing_character_id@.len() == 0 || is_stable_id(d.issuing_character_id@))
    &&& opt_id_ok(d.target_node_id)
    &&& opt_id_ok(d.target_region_id)
    &&& opt_id_ok(d.target_faction_id)
    &&& forall|i: int| 0 <= i < d.resource_limit@.len() ==> is_stable_id((#[trigger] d.resource_limit@[i]).0)
}

/// The authorised spend, summed and saturating at the top of `u64`.
pub open spec fn limit_total(s: Seq<(Seq<char>, u32)>) -> u64
    decreases s.len(),
{
    if s.len() == 0 {
        0
    } else {
        let rest = limit_total(s.drop_last());
        if rest as int + s.last().1 as int > u64::MAX as int {
            u64::MAX
        } else {
            (rest + s.last().1) as u64
        }
    }
}

fn check_opt(field: &'static str, id: &Option<String>) -> (r: Result<(), DirectiveError>)
    ensures
        r is Ok <==> opt_id_ok(*id),
        r matches Err(e) ==> e is Id,
{
    match id {
        Some(v) => match require_stable_id(field, v.as_str()) {
            Err(e) => Err(DirectiveError::Id(e)),
            Ok(()) => Ok(()),
        },
        None => Ok(()),
    }
}

impl StrategicDirective {
    /// A directive with everything but its ID, faction and intent left at
    /// the defaults.
    pub fn new(id: &str, faction_id: &str, intent: Intent) -> (r: Self)
        ensures
            r.id@ == id@,
            r.faction_id@ == faction_id@,
            r.intent == intent,
            r.issuing_character_id@.len() == 0,
            r.target_node_id is None,
            r.target_region_id is None,
            r.target_faction_id is None,
            r.priority == Priority::Standing,
            r.acceptable_risk == 0,
            r.resource_limit@.len() == 0,
            r.reserve_policy == ReservePolicy::Hold,
            r.state == DirectiveStatus::Active,
            r.explanation is None,
            r.blocking_reasons@.len() == 0,
    {
        StrategicDirective {
            id: id.to_owned(),
            faction_id: faction_id.to_owned(),
            issuing_character_id: String::new(),
            intent,
            target_node_id: None,
            target_region_id: None,
            target_faction_id: None,
            priority: Priority::Standing,
            acceptable_risk: 0,
            resource_limit: StrMap::new(),
            reserve_policy: ReservePolicy::Hold,
            completion_condition: String::new(),
            withdrawal_condition: String::new(),
            state: DirectiveStatus::Active,
            explanation: None,
            blocking_reasons: Vec::new(),
        }
    }

    /// Every ID the directive carries has the stable-ID shape, and the
    /// directive and faction IDs are in their namespaces.
    pub fn validate(&self) -> (r: Result<(), DirectiveError>)
        ensures
            r is Ok <==> directive_valid(*self),
            r matches Err(e) ==> e is Id,
            !is_stable_id(self.id@) ==> (r matches Err(DirectiveError::Id(e)) && invalid_id(e, "directive.id", self.id@)),
            is_stable_id(self.id@) && !seq_starts_with(self.id@, DIRECTIVE_ID_PREFIX@) ==> (r matches Err(
                DirectiveError::Id(e),
            ) && invalid_id(e, "directive.id", self.id@)),
    {
        match require_stable_id("directive.id", self.id.as_str()) {
            Err(e) => return Err(DirectiveError::Id(e)),
            Ok(()) => {},
        }
        if !starts_with(self.id.as_str(), DIRECTIVE_ID_PREFIX) {
            return Err(DirectiveError::Id(ExpeditionError::InvalidStableId { field: "directive.id", value: self.id.clone() }));
        }
        match require_stable_id("directive.faction_id", self.faction_id.as_str()) {
            Err(e) => return Err(DirectiveError::Id(e)),
            Ok(()) => {},
        }
        if !starts_with(self.faction_id.as_str(), FACTION_ID_PREFIX) {
            return Err(
                DirectiveError::Id(ExpeditionError::InvalidStableId { field: "directive.faction_id", value: self.faction_id.clone() }),
            );
        }
        if !self.issuing_character_id.as_str().is_empty() {
            match require_stable_id("directive.issuing_character_id", self.issuing_character_id.as_str()) {
                Err(e) => return Err(DirectiveError::Id(e)),
                Ok(()) => {},
            }
        }
        match check_opt("directive.target_node_id", &self.target_node_id) {
            Err(e) => return Err(e),
            Ok(()) => {},
        }
        match check_opt("directive.target_region_id", &self.target_region_id) {
            Err(e) => return Err(e),
            Ok(()) => {},
        }
        match check_opt("directive.target_faction_id", &self.target_faction_id) {
            Err(e) => return Err(e),
            Ok(()) => {},
        }
        let mut i: usize = 0;
        while i < self.resource_limit.len()
            invariant
                i <= self.resource_limit@.len(),
                forall|j: int| 0 <= j < i ==> is_stable_id((#[trigger] self.resource_limit@[j]).0),
                is_stable_id(self.id@),
                seq_starts_with(self.id@, DIRECTIVE_ID_PREFIX@),
                is_stable_id(self.faction_id@),
                seq_starts_with(self.faction_id@, FACTION_ID_PREFIX@),
                self.issuing_character_id@.len() == 0 || is_stable_id(self.issuing_character_id@),
                opt_id_ok(self.target_node_id),
                opt_id_ok(self.target_region_id),
                opt_id_ok(self.target_faction_id),
            decreases self.resource_limit@.len() - i,
        {
            match require_stable_id("directive.resource_limit", self.resource_limit.key_at(i).as_str()) {
                Err(e) => return Err(DirectiveError::Id(e)),
                Ok(()) => {},
            }
            i = i + 1;
        }
        Ok(())
    }

    /// Everything the directive authorises spending, summed.
    pub fn resource_limit_total(&self) -> (r: u64)
        ensures
            r == limit_total(self.resource_limit@),
    {
        let mut total: u64 = 0;
        let mut i: usize = 0;
        while i < self.resource_limit.len()
            invariant
                i <= self.resource_limit@.len(),
                total == limit_total(self.resource_limit@.take(i as int)),
            decreases self.resource_limit@.len() - i,
        {
            proof {
                assert(self.resource_limit@.take(i + 1).drop_last() =~= self.resource_limit@.take(i as int));
            }
            total = total.saturating_add(*self.resource_limit.value_at(i) as u64);
            i = i + 1;
        }
        proof {
            assert(self.resource_limit@.take(self.resource_limit@.len() as int) =~= self.resource_limit@);
        }
        total
    }
}

/// How far from the party a target still counts as somewhere it could go
/// and matter. Provisional.
pub const PARTY_COULD_HELP_STEPS: u32 = 3;

/// The stockpile a committed attack wants behind it when the directive
/// states no limit of its own. Provisional.
pub const ATTACK_SUPPLY_FLOOR: u64 = 50;

/// The blocker for a place the graph does not know.
pub open spec fn unknown_place_text(named: Seq<char>) -> Seq<char> {
    "the faction knows no place called "@ + named + ", so it cannot start"@
}

/// The blocker for a road that is more dangerous than it was built to be.
pub open spec fn contested_road_text(id: Seq<char>) -> Seq<char> {
    "the road "@ + id + " is contested, which makes it more dangerous than it was built to be"@
}

/// The blocker for a road more dangerous than the directive accepts.
pub open spec fn danger_road_text(id: Seq<char>, effective: u8, acceptable: u8) -> Seq<char> {
    "the road "@ + id + " runs at danger "@ + decimal(effective as nat) + " and this directive accepts "@ + decimal(acceptable as nat)
}

/// The blocker for an attack its stores cannot cover.
pub open spec fn supply_short_text(wanted: u64, stock: u64) -> Seq<char> {
    "supply is short: an attack of this size wants "@ + decimal(wanted as nat)
        + " in stores over the categories this directive names and the faction has "@ + decimal(stock as nat)
}

/// The blocker naming a standing directive that argues the other way.
pub open spec fn competing_text(intent: Intent, id: Seq<char>) -> Seq<char> {
    "it already has a standing directive to "@ + intent.word() + " the same ground ("@ + id + seq![')']
}

/// The blockers the roads to a target raise, in walking order: a contested
/// road, or else a road more dangerous than the directive accepts.
pub open spec fn road_blockers(g: Geography, ownership: Map<Seq<char>, String>, roads: Seq<RouteOption>, acceptable: u8) -> Seq<Seq<char>>
    decreases roads.len(),
{
    if roads.len() == 0 {
        Seq::empty()
    } else {
        let rest = road_blockers(g, ownership, roads.drop_last(), acceptable);
        let r = roads.last();
        let effective = risk_now(g, r, ownership);
        if effective > r.risk_level {
            rest.push(contested_road_text(r.id@))
        } else if effective > acceptable {
            rest.push(danger_road_text(r.id@, effective, acceptable))
        } else {
            rest
        }
    }
}

/// One sign of a pull: `1`, `0` or `-1`.
pub open spec fn sign(x: int) -> int {
    if x > 0 {
        1
    } else if x < 0 {
        -1
    } else {
        0
    }
}

/// Whether a standing directive of one intent argues against a new one of
/// another: on some goal one pulls for and the other against.
pub open spec fn opposed(a: Intent, b: Intent) -> bool {
    exists|k: int| 0 <= k < 6 && #[trigger] sign(intent_row(a)[k]) * sign(intent_row(b)[k]) < 0
}

/// The stores, summed over every open key and saturating at the top of
/// `u64`.
pub open spec fn stock_of(s: Seq<(Seq<char>, u32)>) -> u64
    decreases s.len(),
{
    if s.len() == 0 {
        0
    } else {
        let rest = stock_of(s.drop_last());
        if rest as int + s.last().1 as int > u64::MAX as int {
            u64::MAX
        } else {
            (rest + s.last().1) as u64
        }
    }
}

/// The blockers the standing directives of a faction raise against a new
/// one, in order.
pub open spec fn competing_blockers(ds: Seq<(Seq<char>, StrategicDirective)>, d: StrategicDirective, ignoring: Option<Seq<char>>) -> Seq<Seq<char>>
    decreases ds.len(),
{
    if ds.len() == 0 {
        Seq::empty()
    } else {
        let rest = competing_blockers(ds.drop_last(), d, ignoring);
        let s = ds.last().1;
        if ignoring != Some(ds.last().0) && s.faction_id@ == d.faction_id@ && s.state == DirectiveStatus::Active && opposed(s.intent, d.intent) {
            rest.push(competing_text(s.intent, s.id@))
        } else {
            rest
        }
    }
}

impl Intent {
    /// Whether a standing directive with this intent argues against a new
    /// one with `other`'s intent.
    pub fn opposes(self, other: Intent) -> (r: bool)
        ensures
            r == opposed(self, other),
    {
        let mine = intent_goal_row(self);
        let theirs = intent_goal_row(other);
        let mut k: usize = 0;
        while k < 6
            invariant
                k <= 6,
                forall|j: int| 0 <= j < 6 ==> mine@[j] as int == #[trigger] intent_row(self)[j],
                forall|j: int| 0 <= j < 6 ==> theirs@[j] as int == #[trigger] intent_row(other)[j],
                forall|j: int| 0 <= j < k ==> !(#[trigger] sign(intent_row(self)[j]) * sign(intent_row(other)[j]) < 0),
            decreases 6 - k,
        {
            let a = mine[k];
            let b = theirs[k];
            proof {
                assert(a as int == intent_row(self)[k as int]);
                assert(b as int == intent_row(other)[k as int]);
            }
            if (a > 0 && b < 0) || (a < 0 && b > 0) {
                proof {
                    assert(sign(intent_row(self)[k as int]) * sign(intent_row(other)[k as int]) < 0);
                }
                return true;
            }
            k = k + 1;
        }
        false
    }
}

fn sum_stock(resources: &StrMap<u32>) -> (r: u64)
    ensures
        r == stock_of(resources@),
{
    let mut total: u64 = 0;
    let mut i: usize = 0;
    while i < resources.len()
        invariant
            i <= resources@.len(),
            total == stock_of(resources@.take(i as int)),
        decreases resources@.len() - i,
    {
        proof {
            assert(resources@.take(i + 1).drop_last() =~= resources@.take(i as int));
        }
        total = total.saturating_add(*resources.value_at(i) as u64);
        i = i + 1;
    }
    proof {
        assert(resources@.take(resources@.len() as int) =~= resources@);
    }
    total
}

/// What the faction says it would spend: the player's own numbers, read
/// back.
pub open spec fn reserve_words(p: ReservePolicy) -> Seq<char> {
    match p {
        ReservePolicy::Hold => "the reserve stays where it is"@,
        ReservePolicy::Commit => "the reserve may go in if the faction judges it needed"@,
    }
}

/// The limits a directive names, as `amount of key` joined by commas.
pub open spec fn named_limits(s: Seq<(Seq<char>, u32)>) -> Seq<char>
    decreases s.len(),
{
    if s.len() == 0 {
        Seq::empty()
    } else if s.len() == 1 {
        decimal(s[0].1 as nat) + " of "@ + s[0].0
    } else {
        named_limits(s.drop_last()) + ", "@ + decimal(s.last().1 as nat) + " of "@ + s.last().0
    }
}

pub open spec fn resources_text(d: StrategicDirective, stock: u64) -> Seq<char> {
    if d.resource_limit@.len() == 0 {
        "no limit was set, so the faction will spend out of its stores ("@ + decimal(stock as nat) + " in all) as it sees fit; "@
            + reserve_words(d.reserve_policy)
    } else {
        "up to "@ + named_limits(d.resource_limit@) + " out of stores of "@ + decimal(stock as nat) + " in all; "@ + reserve_words(
            d.reserve_policy,
        )
    }
}

fn describe_resources(directive: &StrategicDirective, stock: u64) -> (r: String)
    ensures
        r@ == resources_text(*directive, stock),
{
    let reserve = match directive.reserve_policy {
        ReservePolicy::Hold => "the reserve stays where it is",
        ReservePolicy::Commit => "the reserve may go in if the faction judges it needed",
    };
    if directive.resource_limit.len() == 0 {
        let mut t = owned("no limit was set, so the faction will spend out of its stores (");
        push_decimal(&mut t, stock);
        push_str(&mut t, " in all) as it sees fit; ");
        push_str(&mut t, reserve);
        return t;
    }
    let mut named = String::new();
    let mut i: usize = 0;
    while i < directive.resource_limit.len()
        invariant
            i <= directive.resource_limit@.len(),
            named@ == named_limits(directive.resource_limit@.take(i as int)),
        decreases directive.resource_limit@.len() - i,
    {
        proof {
            let s = directive.resource_limit@.take(i + 1);
            assert(s.drop_last() =~= directive.resource_limit@.take(i as int));
            if i == 0 {
                assert(named@ =~= Seq::<char>::empty());
            }
        }
        if i > 0 {
            push_str(&mut named, ", ");
        }
        push_decimal(&mut named, *directive.resource_limit.value_at(i) as u64);
        push_str(&mut named, " of ");
        push_str(&mut named, directive.resource_limit.key_at(i).as_str());
        proof {
            let s = directive.resource_limit@.take(i + 1);
            if i == 0 {
                assert(named@ =~= named_limits(s));
            } else {
                assert(named@ =~= named_limits(s));
            }
        }
        i = i + 1;
    }
    proof {
        assert(directive.resource_limit@.take(directive.resource_limit@.len() as int) =~= directive.resource_limit@);
    }
    let mut t = owned("up to ");
    push_str(&mut t, named.as_str());
    push_str(&mut t, " out of stores of ");
    push_decimal(&mut t, stock);
    push_str(&mut t, " in all; ");
    push_str(&mut t, reserve);
    t
}

/// When the faction would break a directive off: the player's own
/// condition, trimmed, then the risk they accepted.
pub open spec fn withdrawal_text(stated: Seq<char>, acceptable: u8) -> Seq<char> {
    let risk = "it breaks off if the road it must use runs more dangerous than "@ + decimal(acceptable as nat);
    if stated.len() == 0 {
        risk + "; nothing else was stated, so the faction will use its own judgement"@
    } else {
        stated + "; and "@ + risk
    }
}

fn describe_withdrawal(directive: &StrategicDirective) -> (r: String)
    ensures
        exists|a: int, b: int|
            trimmed(directive.withdrawal_condition@, a, b) && r@ == withdrawal_text(
                directive.withdrawal_condition@.subrange(a, b),
                directive.acceptable_risk,
            ),
{
    let stated = trim_text(directive.withdrawal_condition.as_str());
    let mut risk = owned("it breaks off if the road it must use runs more dangerous than ");
    push_decimal(&mut risk, directive.acceptable_risk as u64);
    if stated.as_str().is_empty() {
        push_str(&mut risk, "; nothing else was stated, so the faction will use its own judgement");
        risk
    } else {
        let mut t = stated;
        push_str(&mut t, "; and ");
        push_str(&mut t, risk.as_str());
        t
    }
}

/// The display name of the first cell carrying this ID.
pub open spec fn display_name_of(g: Geography, cell: Seq<char>) -> Seq<char> {
    g.locations@[choose|i: int| crate::geography::location_at(g, cell, i)].display_name@
}

/// Why this place, in the faction's own terms.
pub open spec fn target_text(s: ExpeditionState, g: Geography, d: StrategicDirective, target: Option<Seq<char>>, view: BoardView) -> Seq<char> {
    match target {
        None => match d.target_region_id {
            Some(region) => "no single place is named; this is about everywhere in "@ + region@,
            None => if d.target_faction_id is Some {
                "no place is named; this is about another faction wherever it is found"@
            } else {
                "no place is named, so the faction will read this as standing policy"@
            },
        },
        Some(cell) => {
            let name = display_name_of(g, cell);
            if view.held@.contains(cell) {
                name + " is ground the faction already holds"@
            } else if view.contested_frontier.contents().contains_key(cell) {
                name + " is on the border, and another faction holds it"@
            } else if view.open_frontier@.contains(cell) {
                name + " borders the faction's ground and nobody holds it"@
            } else if s.ownership.contents().contains_key(cell) || crate::geography::authored_controller(g.locations@, cell) is Some {
                name + " is held by another faction and does not touch the faction's ground"@
            } else {
                name + " is unheld and does not touch the faction's ground"@
            }
        },
    }
}

/// What an explanation of a directive says, on this board, with the
/// standing directive under `ignoring` left out of the competition.
pub open spec fn explains(s: ExpeditionState, g: Geography, d: StrategicDirective, ignoring: Option<Seq<char>>, e: Explanation) -> bool {
    &&& e.goal@ == d.intent.goal_words()
    &&& e.resources@ == resources_text(d, faction_stock(s, d.faction_id@))
    &&& exists|a: int, b: int|
        trimmed(d.withdrawal_condition@, a, b) && e.withdrawal_conditions@ == withdrawal_text(d.withdrawal_condition@.subrange(a, b), d.acceptable_risk)
    &&& exists|view: BoardView|
        crate::utility::view_of(view, s, d.faction_id@, g) && e.why_target@ == target_text(s, g, d, known_target(g, d), view)
    &&& exists|roads: Seq<RouteOption>|
        #![trigger road_blockers(g, s.ownership.contents(), roads, d.acceptable_risk)]
        roads_reported(s, g, d, roads) && e.blockers@.map_values(|b: String| b@) == blockers_named(s, g, d, ignoring, roads)
    &&& e.party_could_help <==> (known_target(g, d) matches Some(t) && exists|n: nat|
        n <= PARTY_COULD_HELP_STEPS && #[trigger] joined(g, s.discoveries@, s.active_location_id@, t, n))
}

/// The roads an explanation reports: none without a place the graph knows,
/// none when the faction holds that place or none of its holdings can reach
/// it, and otherwise the walk of next steps from its nearest holding.
pub open spec fn roads_reported(s: ExpeditionState, g: Geography, d: StrategicDirective, roads: Seq<RouteOption>) -> bool {
    &&& forall|i: int| 0 <= i < roads.len() ==> g.routes@.contains(#[trigger] roads[i])
    &&& known_target(g, d) is None ==> roads.len() == 0
    &&& known_target(g, d) matches Some(t) ==> {
        let ground = faction_ground(s, g, d.faction_id@);
        &&& walk_toward(g, s.discoveries@, ground, t, roads)
        &&& ground.contains(t) ==> roads.len() == 0
        &&& !reachable_from(g, s.discoveries@, ground, t) ==> roads.len() == 0
        &&& !ground.contains(t) && reachable_from(g, s.discoveries@, ground, t) ==> roads.len() > 0 && nearest_holding(
            g,
            s.discoveries@,
            ground,
            t,
            roads[0].from_location_id@,
        ) && stepped_toward(g, s.discoveries@, roads[0].from_location_id@, t, roads, g.locations@.len() as nat)
    }
}

/// The blockers an explanation names over the roads it reports, in order:
/// an unknown place, the roads that are contested or too dangerous, stores
/// an attack cannot cover, and the standing directives that argue the
/// other way.
pub open spec fn blockers_named(s: ExpeditionState, g: Geography, d: StrategicDirective, ignoring: Option<Seq<char>>, roads: Seq<RouteOption>) -> Seq<
    Seq<char>,
> {
    (match d.target_node_id {
        Some(t) => if has_location(g, t@) {
            Seq::empty()
        } else {
            seq![unknown_place_text(t@)]
        },
        None => Seq::empty(),
    }) + road_blockers(g, s.ownership.contents(), roads, d.acceptable_risk) + (if d.intent == Intent::Attack && faction_stock(s, d.faction_id@)
        < wanted_stock(d) {
        seq![supply_short_text(wanted_stock(d), faction_stock(s, d.faction_id@))]
    } else {
        Seq::empty()
    }) + competing_blockers(s.directives@, d, ignoring)
}

/// The roads an explanation reports are one walk: two reports of one
/// directive on one board carry the same roads.
pub proof fn lemma_reported_roads_unique(s: ExpeditionState, g: Geography, d: StrategicDirective, r1: Seq<RouteOption>, r2: Seq<RouteOption>)
    requires
        roads_reported(s, g, d, r1),
        roads_reported(s, g, d, r2),
    ensures
        r1 == r2,
{
    match known_target(g, d) {
        None => {
            assert(r1 =~= r2);
        },
        Some(t) => {
            let ground = faction_ground(s, g, d.faction_id@);
            if ground.contains(t) || !reachable_from(g, s.discoveries@, ground, t) {
                assert(r1 =~= r2);
            } else {
                lemma_nearest_unique(g, s.discoveries@, ground, t, r1[0].from_location_id@, r2[0].from_location_id@);
                lemma_stepped_unique(g, s.discoveries@, r1[0].from_location_id@, t, r1, r2, g.locations@.len() as nat);
            }
        },
    }
}

/// Each road of a walk is answered in the road blockers: a road running
/// more dangerous than it was built is named as contested, and a road that is
/// not, running above the danger the directive accepts, is named with its
/// danger and the accepted one.
proof fn lemma_road_blockers_name(g: Geography, own: Map<Seq<char>, String>, roads: Seq<RouteOption>, acceptable: u8, i: int)
    requires
        0 <= i < roads.len(),
    ensures
        ({
            let eff = risk_now(g, roads[i], own);
            let named = road_blockers(g, own, roads, acceptable);
            &&& eff > roads[i].risk_level ==> named.contains(
                "the road "@ + roads[i].id@ + " is contested, which makes it more dangerous than it was built to be"@,
            )
            &&& eff <= roads[i].risk_level && eff > acceptable ==> named.contains(
                "the road "@ + roads[i].id@ + " runs at danger "@ + decimal(eff as nat) + " and this directive accepts "@ + decimal(
                    acceptable as nat,
                ),
            )
        }),
    decreases roads.len(),
{
    let rest = road_blockers(g, own, roads.drop_last(), acceptable);
    let all = road_blockers(g, own, roads, acceptable);
    if i == roads.len() - 1 {
        assert(all.last() == all[all.len() - 1]);
    } else {
        lemma_road_blockers_name(g, own, roads.drop_last(), acceptable, i);
        assert(roads.drop_last()[i] == roads[i]);
        assert forall|x: Seq<char>| rest.contains(x) implies all.contains(x) by {
            let j = choose|j: int| 0 <= j < rest.len() && rest[j] == x;
            assert(all[j] == x);
        }
    }
}

/// Every road an explanation reports is answered in its blockers: a road
/// that contest makes more dangerous than it was built is named as
/// contested, and a road that is not contested but runs above the danger the
/// directive accepts is named with its danger and the accepted danger.
pub proof fn lemma_road_dangers_named(
    s: ExpeditionState,
    g: Geography,
    d: StrategicDirective,
    ignoring: Option<Seq<char>>,
    e: Explanation,
    roads: Seq<RouteOption>,
    i: int,
)
    requires
        explains(s, g, d, ignoring, e),
        roads_reported(s, g, d, roads),
        0 <= i < roads.len(),
    ensures
        ({
            let eff = risk_now(g, roads[i], s.ownership.contents());
            let named = e.blockers@.map_values(|b: String| b@);
            &&& eff > roads[i].risk_level ==> named.contains(
                "the road "@ + roads[i].id@ + " is contested, which makes it more dangerous than it was built to be"@,
            )
            &&& eff <= roads[i].risk_level && eff > d.acceptable_risk ==> named.contains(
                "the road "@ + roads[i].id@ + " runs at danger "@ + decimal(eff as nat) + " and this directive accepts "@ + decimal(
                    d.acceptable_risk as nat,
                ),
            )
        }),
{
    let own = s.ownership.contents();
    let r0 = choose|rs: Seq<RouteOption>|
        #![trigger road_blockers(g, own, rs, d.acceptable_risk)]
        roads_reported(s, g, d, rs) && e.blockers@.map_values(|b: String| b@) == blockers_named(s, g, d, ignoring, rs);
    lemma_reported_roads_unique(s, g, d, r0, roads);
    lemma_road_blockers_name(g, own, roads, d.acceptable_risk, i);
    let front = match d.target_node_id {
        Some(t) => if has_location(g, t@) {
            Seq::<Seq<char>>::empty()
        } else {
            seq![unknown_place_text(t@)]
        },
        None => Seq::<Seq<char>>::empty(),
    };
    let rb = road_blockers(g, own, roads, d.acceptable_risk);
    let all = blockers_named(s, g, d, ignoring, roads);
    assert forall|x: Seq<char>| rb.contains(x) implies all.contains(x) by {
        let j = choose|j: int| 0 <= j < rb.len() && rb[j] == x;
        assert(all[front.len() + j] == x);
    }
}

/// An explanation is a function of the save, the graph, the directive and
/// the standing directive left out: two explanations of one directive on
/// one board give the same goal, reasons, stores and withdrawal terms, name
/// the same blockers in the same order, and agree on whether the party
/// could help.
pub proof fn lemma_explanation_determined(
    s: ExpeditionState,
    g: Geography,
    d: StrategicDirective,
    ignoring: Option<Seq<char>>,
    e1: Explanation,
    e2: Explanation,
)
    requires
        explains(s, g, d, ignoring, e1),
        explains(s, g, d, ignoring, e2),
    ensures
        e1.goal@ == e2.goal@,
        e1.why_target@ == e2.why_target@,
        e1.resources@ == e2.resources@,
        e1.withdrawal_conditions@ == e2.withdrawal_conditions@,
        e1.blockers@.map_values(|b: String| b@) == e2.blockers@.map_values(|b: String| b@),
        e1.party_could_help == e2.party_could_help,
{
    let w = d.withdrawal_condition@;
    let (a1, b1) = choose|a: int, b: int| trimmed(w, a, b) && e1.withdrawal_conditions@ == withdrawal_text(w.subrange(a, b), d.acceptable_risk);
    let (a2, b2) = choose|a: int, b: int| trimmed(w, a, b) && e2.withdrawal_conditions@ == withdrawal_text(w.subrange(a, b), d.acceptable_risk);
    crate::text::lemma_trimmed_unique(w, a1, b1, a2, b2);
    let v1 = choose|view: BoardView|
        crate::utility::view_of(view, s, d.faction_id@, g) && e1.why_target@ == target_text(s, g, d, known_target(g, d), view);
    let v2 = choose|view: BoardView|
        crate::utility::view_of(view, s, d.faction_id@, g) && e2.why_target@ == target_text(s, g, d, known_target(g, d), view);
    assert(v1.held@ == v2.held@);
    assert(v1.open_frontier@ == v2.open_frontier@);
    assert(v1.contested_frontier.contents().dom() == v2.contested_frontier.contents().dom());
    let r1 = choose|roads: Seq<RouteOption>|
        #![trigger road_blockers(g, s.ownership.contents(), roads, d.acceptable_risk)]
        roads_reported(s, g, d, roads) && e1.blockers@.map_values(|b: String| b@) == blockers_named(s, g, d, ignoring, roads);
    let r2 = choose|roads: Seq<RouteOption>|
        #![trigger road_blockers(g, s.ownership.contents(), roads, d.acceptable_risk)]
        roads_reported(s, g, d, roads) && e2.blockers@.map_values(|b: String| b@) == blockers_named(s, g, d, ignoring, roads);
    lemma_reported_roads_unique(s, g, d, r1, r2);
}

/// `roads` is a walk out of the faction's ground toward `target`: each road
/// one of the graph's and usable through the opened gates, each leaving from
/// where the one before arrived, the first from a cell in `held`, and the
/// target still reachable from where each arrives.
pub open spec fn walk_toward(g: Geography, gates: Set<Seq<char>>, held: Set<Seq<char>>, target: Seq<char>, roads: Seq<RouteOption>) -> bool {
    &&& forall|k: int|
        0 <= k < roads.len() ==> g.routes@.contains(#[trigger] roads[k]) && crate::geography::usable(roads[k], gates) && exists|m: nat|
            connects(g.routes@, gates, roads[k].to_location_id@, target, m)
    &&& forall|a: int, b: int|
        #![trigger roads[a], roads[b]]
        0 <= a && b == a + 1 && b < roads.len() ==> roads[a].to_location_id@ == roads[b].from_location_id@
    &&& roads.len() > 0 ==> held.contains(roads[0].from_location_id@)
}

/// `from` is the holding nearest `target`: a cell of `held` with a walk
/// through the graph's cells of at most the longest representable number
/// of roads that no holding beats, and of those as near, the lowest ID.
pub open spec fn nearest_holding(g: Geography, gates: Set<Seq<char>>, held: Set<Seq<char>>, target: Seq<char>, from: Seq<char>) -> bool {
    exists|s: nat|
        #![trigger joined(g, gates, from, target, s)]
        {
            &&& s <= u32::MAX
            &&& held.contains(from)
            &&& joined(g, gates, from, target, s)
            &&& forall|c: Seq<char>, n: nat| held.contains(c) && #[trigger] joined(g, gates, c, target, n) ==> s <= n
            &&& forall|c: Seq<char>| held.contains(c) && #[trigger] joined(g, gates, c, target, s) ==> c == from || seq_lt(from, c)
        }
}

/// `road` is the graph's next step from `from` toward `target`: the first
/// road of the graph that leads somewhere closer.
#[verifier::opaque]
pub open spec fn next_step_of(g: Geography, gates: Set<Seq<char>>, from: Seq<char>, target: Seq<char>, road: RouteOption) -> bool {
    exists|j: int| crate::geography::first_closer_road(g, gates, from, target, j) && g.routes@[j] == road
}

/// No road of the graph leads from `from` somewhere closer to `target`.
#[verifier::opaque]
pub open spec fn no_closer_road(g: Geography, gates: Set<Seq<char>>, from: Seq<char>, target: Seq<char>) -> bool {
    forall|j: int| 0 <= j < g.routes@.len() ==> !#[trigger] crate::geography::closer_road(g, gates, from, target, j)
}

/// Where a walk of `roads` out of `start` stands after its first `i` roads.
pub open spec fn at_step(start: Seq<char>, roads: Seq<RouteOption>, i: int) -> Seq<char> {
    if i <= 0 {
        start
    } else {
        roads[i - 1].to_location_id@
    }
}

/// Every road of `roads` is the graph's next step toward `target` from
/// where the walk out of `start` stands, and the walk has not yet reached
/// the target when it takes it.
#[verifier::opaque]
pub open spec fn steps_taken(g: Geography, gates: Set<Seq<char>>, start: Seq<char>, target: Seq<char>, roads: Seq<RouteOption>) -> bool {
    forall|i: int|
        0 <= i < roads.len() ==> at_step(start, roads, i) != target && next_step_of(g, gates, at_step(start, roads, i), target, #[trigger] roads[i])
}

/// `roads` is the walk the graph's next steps give out of `start`: every road
/// is the first road of the graph that leads somewhere closer to `target`
/// from where the walk stands, and the walk stops at the target, where no
/// such road is left, or once it is longer than `limit`.
pub open spec fn stepped_toward(g: Geography, gates: Set<Seq<char>>, start: Seq<char>, target: Seq<char>, roads: Seq<RouteOption>, limit: nat) -> bool {
    &&& steps_taken(g, gates, start, target, roads)
    &&& roads.len() <= limit + 1
    &&& roads.len() == limit + 1 || at_step(start, roads, roads.len() as int) == target || no_closer_road(
        g,
        gates,
        at_step(start, roads, roads.len() as int),
        target,
    )
}

/// A walk of next steps stays one when the next step from where it stands
/// is added.
#[verifier::spinoff_prover]
pub proof fn lemma_stepped_push(g: Geography, gates: Set<Seq<char>>, start: Seq<char>, target: Seq<char>, rs: Seq<RouteOption>, step: RouteOption)
    requires
        steps_taken(g, gates, start, target, rs),
        at_step(start, rs, rs.len() as int) != target,
        next_step_of(g, gates, at_step(start, rs, rs.len() as int), target, step),
    ensures
        steps_taken(g, gates, start, target, rs.push(step)),
        at_step(start, rs.push(step), (rs.len() + 1) as int) == step.to_location_id@,
{
    let ns = rs.push(step);
    assert(steps_taken(g, gates, start, target, ns)) by {
        reveal(steps_taken);
        assert forall|x: int|
            #![trigger ns[x]]
            #![trigger at_step(start, ns, x)]
            0 <= x < ns.len() implies at_step(start, ns, x) != target && next_step_of(g, gates, at_step(start, ns, x), target, ns[x]) by {
            if x > 0 {
                assert(ns[x - 1] == rs[x - 1]);
            }
            if x < rs.len() {
                assert(ns[x] == rs[x]);
                assert(at_step(start, ns, x) == at_step(start, rs, x));
            } else {
                assert(ns[x] == step);
                assert(at_step(start, ns, x) == at_step(start, rs, rs.len() as int));
            }
        }
    }
}

/// The graph has one next step from a cell toward a target, if any.
pub proof fn lemma_next_step_unique(g: Geography, gates: Set<Seq<char>>, from: Seq<char>, target: Seq<char>, a: RouteOption, b: RouteOption)
    requires
        next_step_of(g, gates, from, target, a),
        next_step_of(g, gates, from, target, b),
    ensures
        a == b,
{
    reveal(next_step_of);
    let i = choose|i: int| crate::geography::first_closer_road(g, gates, from, target, i) && g.routes@[i] == a;
    let j = choose|j: int| crate::geography::first_closer_road(g, gates, from, target, j) && g.routes@[j] == b;
    if i < j {
        assert(!crate::geography::closer_road(g, gates, from, target, i));
    } else if j < i {
        assert(!crate::geography::closer_road(g, gates, from, target, j));
    }
}

/// Two walks of next steps out of one cell agree on their first `k` roads.
proof fn lemma_steps_agree(g: Geography, gates: Set<Seq<char>>, start: Seq<char>, target: Seq<char>, r1: Seq<RouteOption>, r2: Seq<RouteOption>, k: int)
    requires
        steps_taken(g, gates, start, target, r1),
        steps_taken(g, gates, start, target, r2),
        0 <= k <= r1.len(),
        k <= r2.len(),
    ensures
        forall|i: int| 0 <= i < k ==> r1[i] == r2[i],
        at_step(start, r1, k) == at_step(start, r2, k),
    decreases k,
{
    if k > 0 {
        lemma_steps_agree(g, gates, start, target, r1, r2, k - 1);
        reveal(steps_taken);
        assert(next_step_of(g, gates, at_step(start, r1, k - 1), target, r1[k - 1]));
        assert(next_step_of(g, gates, at_step(start, r2, k - 1), target, r2[k - 1]));
        lemma_next_step_unique(g, gates, at_step(start, r1, k - 1), target, r1[k - 1], r2[k - 1]);
    }
}

/// The graph's next steps give one walk out of a cell: two walks that both
/// follow them, with the same limit, are the same walk.
pub proof fn lemma_stepped_unique(g: Geography, gates: Set<Seq<char>>, start: Seq<char>, target: Seq<char>, r1: Seq<RouteOption>, r2: Seq<RouteOption>, limit: nat)
    requires
        stepped_toward(g, gates, start, target, r1, limit),
        stepped_toward(g, gates, start, target, r2, limit),
    ensures
        r1 == r2,
{
    lemma_walk_not_shorter(g, gates, start, target, r1, r2, limit);
    lemma_walk_not_shorter(g, gates, start, target, r2, r1, limit);
    lemma_steps_agree(g, gates, start, target, r1, r2, r1.len() as int);
    assert(r1 =~= r2);
}

/// No walk of next steps stops while another goes on from where it
/// stopped.
proof fn lemma_walk_not_shorter(g: Geography, gates: Set<Seq<char>>, start: Seq<char>, target: Seq<char>, r1: Seq<RouteOption>, r2: Seq<RouteOption>, limit: nat)
    requires
        stepped_toward(g, gates, start, target, r1, limit),
        stepped_toward(g, gates, start, target, r2, limit),
    ensures
        r2.len() <= r1.len(),
{
    if r1.len() < r2.len() {
        let l = r1.len() as int;
        lemma_steps_agree(g, gates, start, target, r1, r2, l);
        let here = at_step(start, r2, l);
        reveal(steps_taken);
        assert(0 <= l < r2.len());
        let road = r2[l];
        assert(here != target);
        assert(next_step_of(g, gates, here, target, road));
        reveal(next_step_of);
        let j = choose|j: int| crate::geography::first_closer_road(g, gates, here, target, j) && g.routes@[j] == r2[l];
        reveal(no_closer_road);
        assert(!no_closer_road(g, gates, here, target));
    }
}

/// There is one holding nearest a target.
pub proof fn lemma_nearest_unique(g: Geography, gates: Set<Seq<char>>, held: Set<Seq<char>>, target: Seq<char>, a: Seq<char>, b: Seq<char>)
    requires
        nearest_holding(g, gates, held, target, a),
        nearest_holding(g, gates, held, target, b),
    ensures
        a == b,
{
    let sa = choose|s: nat|
        #![trigger joined(g, gates, a, target, s)]
        {
            &&& s <= u32::MAX
            &&& held.contains(a)
            &&& joined(g, gates, a, target, s)
            &&& forall|c: Seq<char>, n: nat| held.contains(c) && #[trigger] joined(g, gates, c, target, n) ==> s <= n
            &&& forall|c: Seq<char>| held.contains(c) && #[trigger] joined(g, gates, c, target, s) ==> c == a || seq_lt(a, c)
        };
    let sb = choose|s: nat|
        #![trigger joined(g, gates, b, target, s)]
        {
            &&& s <= u32::MAX
            &&& held.contains(b)
            &&& joined(g, gates, b, target, s)
            &&& forall|c: Seq<char>, n: nat| held.contains(c) && #[trigger] joined(g, gates, c, target, n) ==> s <= n
            &&& forall|c: Seq<char>| held.contains(c) && #[trigger] joined(g, gates, c, target, s) ==> c == b || seq_lt(b, c)
        };
    assert(sa <= sb && sb <= sa);
    if a != b {
        assert(seq_lt(a, b));
        assert(seq_lt(b, a));
        crate::text::lemma_seq_lt_transitive(a, b, a);
        crate::text::lemma_seq_lt_irreflexive(a);
    }
}

/// Some cell of `held` has a walk through the graph's cells to `target`, of
/// at most the longest representable number of roads, through the opened
/// gates.
pub open spec fn reachable_from(g: Geography, gates: Set<Seq<char>>, held: Set<Seq<char>>, target: Seq<char>) -> bool {
    exists|c: Seq<char>, n: nat| held.contains(c) && n <= u32::MAX && #[trigger] joined(g, gates, c, target, n)
}

/// The ground a faction holds.
pub open spec fn faction_ground(s: ExpeditionState, g: Geography, faction_id: Seq<char>) -> Set<Seq<char>> {
    Set::new(|c: Seq<char>| crate::utility::holds(s, g, faction_id, c))
}

/// The place a directive names, where the graph knows it.
pub open spec fn known_target(g: Geography, d: StrategicDirective) -> Option<Seq<char>> {
    match d.target_node_id {
        Some(t) => if has_location(g, t@) {
            Some(t@)
        } else {
            None
        },
        None => None,
    }
}

/// The stores behind the faction a directive is for.
pub open spec fn faction_stock(s: ExpeditionState, faction_id: Seq<char>) -> u64 {
    if s.factions.contents().contains_key(faction_id) {
        stock_of(s.factions.contents()[faction_id].resources@)
    } else {
        0
    }
}

/// What an attack wants behind it: what the directive authorises, or the
/// floor where it authorises nothing in particular.
pub open spec fn wanted_stock(d: StrategicDirective) -> u64 {
    if d.resource_limit@.len() == 0 {
        ATTACK_SUPPLY_FLOOR
    } else {
        limit_total(d.resource_limit@)
    }
}

impl ExpeditionState {
    fn describe_target(&self, directive: &StrategicDirective, target: Option<&str>, view: &BoardView, geography: &Geography) -> (r: String)
        requires
            match target {
                Some(t) => has_location(*geography, t@),
                None => true,
            },
        ensures
            r@ == target_text(
                *self,
                *geography,
                *directive,
                match target {
                    Some(t) => Some(t@),
                    None => None,
                },
                *view,
            ),
    {
        let cell_id = match target {
            Some(c) => c,
            None => {
                return match &directive.target_region_id {
                    Some(region) => {
                        let mut t = owned("no single place is named; this is about everywhere in ");
                        push_str(&mut t, region.as_str());
                        t
                    },
                    None => match &directive.target_faction_id {
                        Some(_) => owned("no place is named; this is about another faction wherever it is found"),
                        None => owned("no place is named, so the faction will read this as standing policy"),
                    },
                };
            },
        };
        let mut name = match geography.location(cell_id) {
            Some(record) => {
                proof {
                    let i = choose|i: int| crate::geography::location_at(*geography, cell_id@, i) && geography.locations@[i] == *record;
                    let c = choose|c: int| crate::geography::location_at(*geography, cell_id@, c);
                    if c < i {
                        assert(geography.locations@[c].id@ != cell_id@);
                    } else if i < c {
                        assert(geography.locations@[i].id@ != cell_id@);
                    }
                }
                record.display_name.clone()
            },
            None => owned(cell_id),
        };
        if view.held.contains(cell_id) {
            push_str(&mut name, " is ground the faction already holds");
        } else if view.contested_frontier.contains_key(cell_id) {
            push_str(&mut name, " is on the border, and another faction holds it");
        } else if view.open_frontier.contains(cell_id) {
            push_str(&mut name, " borders the faction's ground and nobody holds it");
        } else if self.ownership.contains_key(cell_id) || geography.controller(cell_id).is_some() {
            push_str(&mut name, " is held by another faction and does not touch the faction's ground");
        } else {
            push_str(&mut name, " is unheld and does not touch the faction's ground");
        }
        name
    }

    /// The roads between the faction's nearest holding and the target, in
    /// walking order, through the gates the party has opened. Empty when the
    /// faction holds the target, holds nothing, or cannot reach it; never
    /// empty when one of its holdings has a walk to the target through the
    /// graph's cells.
    #[verifier::rlimit(60)]
    fn route_to_target<'g>(&self, view: &BoardView, target: Option<&str>, geography: &'g Geography) -> (r: Vec<&'g RouteOption>)
        ensures
            target is None ==> r@.len() == 0,
            target matches Some(t) ==> walk_toward(*geography, self.discoveries@, view.held@, t@, r@.map_values(|x: &RouteOption| *x)),
            target matches Some(t) ==> (view.held@.contains(t@) ==> r@.len() == 0),
            target matches Some(t) ==> (!reachable_from(*geography, self.discoveries@, view.held@, t@) ==> r@.len() == 0),
            target matches Some(t) ==> (!view.held@.contains(t@) && reachable_from(*geography, self.discoveries@, view.held@, t@)
                ==> r@.len() > 0),
            target matches Some(t) ==> (!view.held@.contains(t@) && reachable_from(*geography, self.discoveries@, view.held@, t@)
                ==> nearest_holding(*geography, self.discoveries@, view.held@, t@, r@[0].from_location_id@) && stepped_toward(
                *geography,
                self.discoveries@,
                r@[0].from_location_id@,
                t@,
                r@.map_values(|x: &RouteOption| *x),
                geography.locations@.len() as nat,
            )),
    {
        let target = match target {
            Some(t) => t,
            None => {
                return Vec::new();
            },
        };
        if view.held.contains(target) {
            proof {
                assert(Seq::<&RouteOption>::empty().map_values(|x: &RouteOption| *x) =~= Seq::<RouteOption>::empty());
            }
            return Vec::new();
        }
        let ghost routes = geography.routes@;
        let ghost gates = self.discoveries@;
        let ghost order = view.held.order();
        let mut best: Option<(u32, usize)> = None;
        let mut i: usize = 0;
        while i < view.held.len()
            invariant
                i <= order.len(),
                order == view.held.order(),
                routes == geography.routes@,
                gates == self.discoveries@,
                best matches Some(b) ==> b.1 < i,
                best matches Some(b) ==> b.1 < order.len() && has_location(*geography, order[b.1 as int]) && joined(*geography, gates,
                    order[b.1 as int],
                    target@,
                    b.0 as nat,
                ),
                forall|j: int, n: nat|
                    0 <= j < i && n <= u32::MAX && #[trigger] joined(*geography, gates, order[j], target@, n)
                        ==> (best matches Some(b) && b.0 <= n),
                (best matches Some(b) ==> forall|j: int|
                    0 <= j < i && #[trigger] joined(*geography, gates, order[j], target@, b.0 as nat)
                        ==> order[j] == order[b.1 as int] || seq_lt(order[b.1 as int], order[j])),
            decreases order.len() - i,
        {
            let cell = view.held.at(i);
            let found = geography.step_distance(cell.as_str(), target, &self.discoveries);
            let ghost old_best = best;
            match found {
                Some(steps) => {
                    let better = match best {
                        Some((s, k)) => steps < s || (steps == s && crate::text::str_lt(cell.as_str(), view.held.at(k).as_str())),
                        None => true,
                    };
                    if better {
                        best = Some((steps, i));
                    }
                    proof {
                        if old_best is Some && best != old_best {
                            let ob = old_best->0;
                            assert(steps < ob.0 || (steps == ob.0 && seq_lt(order[i as int], order[ob.1 as int])));
                        }
                        if old_best is Some && best == old_best {
                            let ob = old_best->0;
                            assert(!(steps < ob.0 || (steps == ob.0 && seq_lt(order[i as int], order[ob.1 as int]))));
                        }
                    }
                },
                None => {},
            }
            proof {
                {
                    assert forall|j: int, n: nat|
                        0 <= j < i + 1 && n <= u32::MAX && #[trigger] joined(*geography, gates, order[j], target@, n)
                            implies (best matches Some(b) && b.0 <= n) by {
                        if j < i {
                            assert(old_best matches Some(b) && b.0 <= n);
                        }
                    }
                    if best is Some {
                        let b = best->0;
                        {
                            assert forall|j: int|
                                0 <= j < i + 1 && #[trigger] joined(*geography, gates, order[j], target@, b.0 as nat)
                                    implies order[j] == order[b.1 as int] || seq_lt(order[b.1 as int], order[j]) by {
                                if j == i {
                                    if b.1 != i && order[j] != order[b.1 as int] {
                                        assert(old_best == best);
                                        assert(found is Some);
                                        let steps = found->0;
                                        assert(steps <= b.0);
                                        assert(b.0 <= steps);
                                        assert(!seq_lt(order[i as int], order[b.1 as int]));
                                        lemma_seq_lt_total(order[j], order[b.1 as int]);
                                    }
                                } else {
                                    if b.1 == i && old_best is Some {
                                        let ob = old_best->0;
                                        assert(found is Some);
                                        let steps = found->0;
                                        assert(b.0 == steps);
                                        assert(ob.0 <= steps);
                                        assert(steps == ob.0 && seq_lt(order[i as int], order[ob.1 as int]));
                                        assert(order[j] == order[ob.1 as int] || seq_lt(order[ob.1 as int], order[j]));
                                        if order[j] != order[ob.1 as int] {
                                            lemma_seq_lt_transitive(order[i as int], order[ob.1 as int], order[j]);
                                        }
                                    }
                                }
                            }
                        }
                    }
                }
            }
            i = i + 1;
        }
        let (from, from_steps) = match best {
            Some((steps, k)) => (view.held.at(k).clone(), steps),
            None => {
                proof {
                    if reachable_from(*geography, gates, view.held@, target@) {
                        let (c, n) = choose|c: Seq<char>, n: nat|
                            view.held@.contains(c) && n <= u32::MAX && #[trigger] joined(*geography, gates,
                                c,
                                target@,
                                n,
                            );
                        view.held.lemma_order();
                        let j = choose|j: int| 0 <= j < order.len() && order[j] == c;
                        assert(joined(*geography, gates, order[j], target@, n));
                    }
                    assert(Seq::<&RouteOption>::empty().map_values(|x: &RouteOption| *x) =~= Seq::<RouteOption>::empty());
                }
                return Vec::new();
            },
        };
        let ghost start = from@;
        let ghost owed = reachable_from(*geography, gates, view.held@, target@);
        proof {
            if owed {
                let (c, n) = choose|c: Seq<char>, n: nat|
                    view.held@.contains(c) && n <= u32::MAX && #[trigger] joined(*geography, gates,
                        c,
                        target@,
                        n,
                    );
                view.held.lemma_order();
                let j = choose|j: int| 0 <= j < order.len() && order[j] == c;
                assert(joined(*geography, gates, order[j], target@, n));
                assert(from_steps <= n);
                assert forall|c2: Seq<char>, n2: nat|
                    view.held@.contains(c2) && #[trigger] joined(*geography, gates,
                        c2,
                        target@,
                        n2,
                    ) implies from_steps <= n2 by {
                    if n2 <= u32::MAX {
                        let j2 = choose|j2: int| 0 <= j2 < order.len() && order[j2] == c2;
                        assert(joined(*geography, gates, order[j2], target@, n2));
                    }
                }
                assert forall|c2: Seq<char>|
                    view.held@.contains(c2) && #[trigger] joined(*geography, gates,
                        c2,
                        target@,
                        from_steps as nat,
                    ) implies c2 == start || seq_lt(start, c2) by {
                    let j2 = choose|j2: int| 0 <= j2 < order.len() && order[j2] == c2;
                    assert(joined(*geography, gates, order[j2], target@, from_steps as nat));
                }
                assert(joined(*geography, gates, start, target@, from_steps as nat));
                assert(nearest_holding(*geography, gates, view.held@, target@, start));
            }
        }
        let walked = self.walk_to(from, target, geography);
        proof {
            let rs = walked@.map_values(|x: &RouteOption| *x);
            assert forall|k: int| 0 <= k < rs.len() implies geography.routes@.contains(#[trigger] rs[k]) && crate::geography::usable(rs[k], gates)
                && exists|m: nat| connects(geography.routes@, gates, rs[k].to_location_id@, target@, m) by {
                assert(rs[k] == *walked@[k]);
            }
            assert forall|a: int, b: int|
                #![trigger rs[a], rs[b]]
                0 <= a && b == a + 1 && b < rs.len() implies rs[a].to_location_id@ == rs[b].from_location_id@ by {
                assert(rs[a] == *walked@[a] && rs[b] == *walked@[b]);
            }
            if owed {
                assert(exists|s2: nat| s2 <= u32::MAX && joined(*geography, gates, start, target@, s2)) by {
                    assert(joined(*geography, gates, start, target@, from_steps as nat));
                }
            }
            assert(view.held@.contains(start)) by {
                view.held.lemma_order();
            }
            assert(joined(*geography, gates, start, target@, from_steps as nat));
            assert(reachable_from(*geography, gates, view.held@, target@));
        }
        walked
    }

    /// The graph's next steps from `from` toward `target`, one road at a
    /// time through the gates the party has opened, until the target is
    /// reached, no road leads closer, or the walk is longer than the graph has
    /// cells.
    #[verifier::rlimit(100)]
    fn walk_to<'g>(&self, from: String, target: &str, geography: &'g Geography) -> (walked: Vec<&'g RouteOption>)
        requires
            from@ != target@,
        ensures
            walked@.len() > 0 ==> walked@[0].from_location_id@ == from@,
            forall|k: int|
                0 <= k < walked@.len() ==> geography.routes@.contains(*#[trigger] walked@[k]) && crate::geography::usable(
                    *walked@[k],
                    self.discoveries@,
                ) && exists|m: nat| connects(geography.routes@, self.discoveries@, walked@[k].to_location_id@, target@, m),
            forall|a: int, b: int|
                #![trigger walked@[a], walked@[b]]
                0 <= a && b == a + 1 && b < walked@.len() ==> walked@[a].to_location_id@ == walked@[b].from_location_id@,
            (exists|s: nat| s <= u32::MAX && joined(*geography, self.discoveries@, from@, target@, s)) ==> walked@.len() > 0,
            stepped_toward(
                *geography,
                self.discoveries@,
                from@,
                target@,
                walked@.map_values(|x: &RouteOption| *x),
                geography.locations@.len() as nat,
            ),
    {
        let ghost routes = geography.routes@;
        let ghost gates = self.discoveries@;
        let ghost start = from@;
        let ghost owed = exists|s: nat| s <= u32::MAX && joined(*geography, gates, start, target@, s);
        let ghost mut rs: Seq<RouteOption> = Seq::empty();
        proof {
            assert(steps_taken(*geography, gates, start, target@, rs)) by {
                reveal(steps_taken);
            }
        }
        let mut walked: Vec<&'g RouteOption> = Vec::new();
        let mut here = from;
        let limit = geography.locations.len();
        while !str_eq(here.as_str(), target)
            invariant_except_break
                walked@.len() <= limit,
            invariant
                limit == geography.locations@.len(),
                routes == geography.routes@,
                gates == self.discoveries@,
                start != target@,
                owed ==> exists|s: nat| s <= u32::MAX && joined(*geography, gates, start, target@, s),
                walked@.len() == 0 ==> here@ == start,
                walked@.len() > 0 ==> walked@[0].from_location_id@ == start && walked@.last().to_location_id@ == here@,
                rs.len() == walked@.len(),
                forall|x: int| 0 <= x < rs.len() ==> rs[x] == *walked@[x],
                at_step(start, rs, rs.len() as int) == here@,
                steps_taken(*geography, gates, start, target@, rs),
                forall|k: int|
                    0 <= k < walked@.len() ==> routes.contains(*#[trigger] walked@[k]) && crate::geography::usable(*walked@[k], gates)
                        && exists|m: nat| connects(routes, gates, walked@[k].to_location_id@, target@, m),
                forall|a: int, b: int|
                    #![trigger walked@[a], walked@[b]]
                    0 <= a && b == a + 1 && b < walked@.len() ==> walked@[a].to_location_id@ == walked@[b].from_location_id@,
            ensures
                walked@.len() > 0 ==> walked@[0].from_location_id@ == start,
                forall|k: int|
                    0 <= k < walked@.len() ==> routes.contains(*#[trigger] walked@[k]) && crate::geography::usable(*walked@[k], gates)
                        && exists|m: nat| connects(routes, gates, walked@[k].to_location_id@, target@, m),
                forall|a: int, b: int|
                    #![trigger walked@[a], walked@[b]]
                    0 <= a && b == a + 1 && b < walked@.len() ==> walked@[a].to_location_id@ == walked@[b].from_location_id@,
                owed ==> walked@.len() > 0,
                rs.len() == walked@.len(),
                forall|x: int| 0 <= x < rs.len() ==> rs[x] == *walked@[x],
                stepped_toward(*geography, gates, start, target@, rs, limit as nat),
            decreases limit - walked@.len(),
        {
            let step = match geography.next_step_toward(here.as_str(), target, &self.discoveries) {
                Some(s) => s,
                None => {
                    proof {
                        assert(no_closer_road(*geography, gates, here@, target@)) by {
                            reveal(no_closer_road);
                        }
                    }
                    break;
                },
            };
            let ghost pre = walked@;
            let ghost pre_rs = rs;
            proof {
                assert(next_step_of(*geography, gates, here@, target@, *step)) by {
                    reveal(next_step_of);
                }
            }
            walked.push(step);
            proof {
                rs = rs.push(*step);
                assert(walked@[walked@.len() - 1] == step);
                lemma_stepped_push(*geography, gates, start, target@, pre_rs, *step);
                assert forall|a: int, b: int|
                    #![trigger walked@[a], walked@[b]]
                    0 <= a && b == a + 1 && b < walked@.len() implies walked@[a].to_location_id@ == walked@[b].from_location_id@ by {
                    if b < pre.len() {
                        assert(pre[a] == walked@[a] && pre[b] == walked@[b]);
                    }
                }
            }
            here = step.to_location_id.clone();
            if walked.len() > limit {
                break;
            }
        }
        proof {
            assert(walked@.map_values(|x: &RouteOption| *x) =~= rs);
        }
        walked
    }

    /// Could the party get there and matter: reachable from where it stands,
    /// through the graph's cells and the gates it has opened, within
    /// `PARTY_COULD_HELP_STEPS`.
    fn party_could_help(&self, target: Option<&str>, geography: &Geography) -> (r: bool)
        ensures
            r <==> (target matches Some(t) && exists|n: nat|
                n <= PARTY_COULD_HELP_STEPS && #[trigger] joined(*geography, self.discoveries@, self.active_location_id@, t@, n)),
    {
        let target = match target {
            Some(t) => t,
            None => {
                return false;
            },
        };
        match geography.step_distance(self.active_location_id.as_str(), target, &self.discoveries) {
            Some(steps) => steps <= PARTY_COULD_HELP_STEPS,
            None => false,
        }
    }
}

impl ExpeditionState {
    /// Explain a directive in ordinary language before it is issued. Pure:
    /// it reads the save and the graph and changes nothing. A place the graph
    /// does not know becomes a blocker here rather than a refusal. The
    /// blockers come in order: an unknown place; every road on the way that
    /// is contested or more dangerous than accepted; stores an attack cannot
    /// cover; and every standing directive of the faction that argues the
    /// other way. No score, weight or ordering of goals reaches the words.
    pub fn explain_directive(&self, directive: &StrategicDirective, geography: &Geography) -> (r: Explanation)
        ensures
            explains(*self, *geography, *directive, None, r),
    {
        self.explain_ignoring(directive, geography, None)
    }

    /// The explanation, as if the standing directive under `ignoring` were
    /// not there.
    #[verifier::rlimit(40)]
    fn explain_ignoring(&self, directive: &StrategicDirective, geography: &Geography, ignoring: Option<&str>) -> (r: Explanation)
        ensures
            explains(
                *self,
                *geography,
                *directive,
                ignored(ignoring),
                r,
            ),
    {
        let view = BoardView::of(directive.faction_id.as_str(), self, geography);
        let mut blockers: Vec<String> = Vec::new();
        let target: Option<&str> = match &directive.target_node_id {
            Some(named) => {
                if geography.location(named.as_str()).is_some() {
                    Some(named.as_str())
                } else {
                    let mut t = owned("the faction knows no place called ");
                    push_str(&mut t, named.as_str());
                    push_str(&mut t, ", so it cannot start");
                    blockers.push(t);
                    None
                }
            },
            None => None,
        };
        let ghost first = blockers@.map_values(|b: String| b@);
        let why_target = self.describe_target(directive, target, &view, geography);
        let roads = self.route_to_target(&view, target, geography);
        let ghost road_seq = roads@.map_values(|x: &RouteOption| *x);
        let mut k: usize = 0;
        proof {
            assert(road_seq.take(0) =~= Seq::<RouteOption>::empty());
            assert(blockers@.map_values(|b: String| b@) =~= first + road_blockers(*geography, self.ownership.contents(), road_seq.take(0), directive.acceptable_risk));
        }
        while k < roads.len()
            invariant
                k <= roads@.len(),
                road_seq == roads@.map_values(|x: &RouteOption| *x),
                blockers@.map_values(|b: String| b@) == first + road_blockers(
                    *geography,
                    self.ownership.contents(),
                    road_seq.take(k as int),
                    directive.acceptable_risk,
                ),
            decreases roads@.len() - k,
        {
            let road = roads[k];
            proof {
                assert(road_seq.take(k + 1).drop_last() =~= road_seq.take(k as int));
                assert(road_seq.take(k + 1).last() == *road);
            }
            let effective = geography.effective_risk(road, &self.ownership);
            let ghost pre = blockers@.map_values(|b: String| b@);
            if effective > road.risk_level {
                let mut t = owned("the road ");
                push_str(&mut t, road.id.as_str());
                push_str(&mut t, " is contested, which makes it more dangerous than it was built to be");
                let ghost tv = t@;
                blockers.push(t);
                proof {
                    assert(blockers@.map_values(|b: String| b@) =~= pre.push(tv));
                }
            } else if effective > directive.acceptable_risk {
                let mut t = owned("the road ");
                push_str(&mut t, road.id.as_str());
                push_str(&mut t, " runs at danger ");
                push_decimal(&mut t, effective as u64);
                push_str(&mut t, " and this directive accepts ");
                push_decimal(&mut t, directive.acceptable_risk as u64);
                let ghost tv = t@;
                blockers.push(t);
                proof {
                    assert(blockers@.map_values(|b: String| b@) =~= pre.push(tv));
                }
            }
            proof {
                assert(blockers@.map_values(|b: String| b@) =~= first + road_blockers(
                    *geography,
                    self.ownership.contents(),
                    road_seq.take(k + 1),
                    directive.acceptable_risk,
                ));
            }
            k = k + 1;
        }
        proof {
            assert(road_seq.take(roads@.len() as int) =~= road_seq);
        }
        let ghost after_roads = blockers@.map_values(|b: String| b@);
        let stock = match self.factions.get(directive.faction_id.as_str()) {
            Some(f) => sum_stock(&f.resources),
            None => 0,
        };
        let wanted = if directive.resource_limit.len() == 0 {
            ATTACK_SUPPLY_FLOOR
        } else {
            directive.resource_limit_total()
        };
        if directive.intent == Intent::Attack && stock < wanted {
            let mut t = owned("supply is short: an attack of this size wants ");
            push_decimal(&mut t, wanted);
            push_str(&mut t, " in stores over the categories this directive names and the faction has ");
            push_decimal(&mut t, stock);
            let ghost tv = t@;
            blockers.push(t);
            proof {
                assert(blockers@.map_values(|b: String| b@) =~= after_roads.push(tv));
            }
        }
        let ghost after_supply = blockers@.map_values(|b: String| b@);
        proof {
            assert(after_supply =~= after_roads + (if directive.intent == Intent::Attack && stock < wanted {
                seq![supply_short_text(wanted, stock)]
            } else {
                Seq::<Seq<char>>::empty()
            }));
        }
        let mut d: usize = 0;
        proof {
            assert(self.directives@.take(0) =~= Seq::<(Seq<char>, StrategicDirective)>::empty());
            assert(blockers@.map_values(|b: String| b@) =~= after_supply + competing_blockers(self.directives@.take(0), *directive, ignored(ignoring)));
        }
        while d < self.directives.len()
            invariant
                d <= self.directives@.len(),
                blockers@.map_values(|b: String| b@) == after_supply + competing_blockers(self.directives@.take(d as int), *directive, ignored(ignoring)),
            decreases self.directives@.len() - d,
        {
            proof {
                assert(self.directives@.take(d + 1).drop_last() =~= self.directives@.take(d as int));
            }
            let standing = self.directives.value_at(d);
            let skipped = match ignoring {
                Some(x) => str_eq(self.directives.key_at(d).as_str(), x),
                None => false,
            };
            let ghost pre = blockers@.map_values(|b: String| b@);
            if !skipped && str_eq(standing.faction_id.as_str(), directive.faction_id.as_str()) && standing.state == DirectiveStatus::Active
                && standing.intent.opposes(directive.intent) {
                let mut t = owned("it already has a standing directive to ");
                push_str(&mut t, standing.intent.as_str());
                push_str(&mut t, " the same ground (");
                push_str(&mut t, standing.id.as_str());
                push_char(&mut t, ')');
                let ghost tv = t@;
                blockers.push(t);
                proof {
                    assert(blockers@.map_values(|b: String| b@) =~= pre.push(tv));
                    assert(tv =~= competing_text(standing.intent, standing.id@));
                }
            }
            proof {
                assert(blockers@.map_values(|b: String| b@) =~= after_supply + competing_blockers(self.directives@.take(d + 1), *directive, ignored(ignoring)));
            }
            d = d + 1;
        }
        proof {
            assert(self.directives@.take(self.directives@.len() as int) =~= self.directives@);
            if self.factions.contents().contains_key(directive.faction_id@) {
            }
        }
        let result = Explanation {
            goal: owned(directive.intent.explained_goal()),
            why_target,
            resources: describe_resources(directive, stock),
            blockers,
            withdrawal_conditions: describe_withdrawal(directive),
            party_could_help: self.party_could_help(target, geography),
        };
        proof {
            let ig = ignored(ignoring);
            assert(known_target(*geography, *directive) == match target {
                Some(t) => Some(t@),
                None => None::<Seq<char>>,
            });
            assert(view.faction_id@ == directive.faction_id@ && view.held@ == Set::new(
                |c: Seq<char>| crate::utility::holds(*self, *geography, directive.faction_id@, c),
            ) && result.why_target@ == target_text(*self, *geography, *directive, known_target(*geography, *directive), view));
            assert((forall|i: int| 0 <= i < road_seq.len() ==> geography.routes@.contains(#[trigger] road_seq[i])) && (known_target(
                *geography,
                *directive,
            ) is None ==> road_seq.len() == 0));
            assert(result.blockers@.map_values(|b: String| b@) == first + road_blockers(
                *geography,
                self.ownership.contents(),
                road_seq,
                directive.acceptable_risk,
            ) + (if directive.intent == Intent::Attack && stock < wanted {
                seq![supply_short_text(wanted, stock)]
            } else {
                Seq::<Seq<char>>::empty()
            }) + competing_blockers(self.directives@, *directive, ig));
            assert(stock == faction_stock(*self, directive.faction_id@));
            assert(wanted == wanted_stock(*directive));
            assert(first =~= (match directive.target_node_id {
                Some(t) => if has_location(*geography, t@) {
                    Seq::empty()
                } else {
                    seq![unknown_place_text(t@)]
                },
                None => Seq::<Seq<char>>::empty(),
            }));
        }
        result
    }
}

/// The ID a call leaves out, as a sequence.
pub open spec fn ignored(ignoring: Option<&str>) -> Option<Seq<char>> {
    match ignoring {
        Some(x) => Some(x@),
        None => None,
    }
}

/// Two optional IDs say the same thing.
pub open spec fn same_opt(a: Option<String>, b: Option<String>) -> bool {
    match (a, b) {
        (Some(x), Some(y)) => x@ == y@,
        (None, None) => true,
        _ => false,
    }
}

/// A standing directive that already says what `d` says: the same faction,
/// intent and targets.
pub open spec fn says_the_same(s: StrategicDirective, d: StrategicDirective) -> bool {
    &&& s.state == DirectiveStatus::Active
    &&& s.faction_id@ == d.faction_id@
    &&& s.intent == d.intent
    &&& same_opt(s.target_node_id, d.target_node_id)
    &&& same_opt(s.target_region_id, d.target_region_id)
    &&& same_opt(s.target_faction_id, d.target_faction_id)
}

/// Position `i` holds the first standing directive that says what `d`
/// says, the one under `ignoring` left out.
pub open spec fn first_same(ds: Seq<(Seq<char>, StrategicDirective)>, d: StrategicDirective, ignoring: Option<Seq<char>>, i: int) -> bool {
    &&& 0 <= i < ds.len()
    &&& ignoring != Some(ds[i].0) && says_the_same(ds[i].1, d)
    &&& forall|j: int| 0 <= j < i ==> !(ignoring != Some((#[trigger] ds[j]).0) && says_the_same(ds[j].1, d))
}

/// Which of issuing's checks a directive fails first, in the order a player
/// meets them; `5` when it passes them all.
pub open spec fn issue_stage(s: ExpeditionState, g: Geography, d: StrategicDirective, ignoring: Option<Seq<char>>) -> int {
    if !directive_valid(d) {
        0
    } else if !s.factions.contents().contains_key(d.faction_id@) {
        1
    } else if d.target_node_id matches Some(t) && !has_location(g, t@) {
        2
    } else if s.directives.contents().contains_key(d.id@) && ignoring != Some(d.id@) {
        3
    } else if exists|i: int| first_same(s.directives@, d, ignoring, i) {
        4
    } else {
        5
    }
}

/// The same words, field for field.
pub open spec fn same_explanation(a: Explanation, b: Explanation) -> bool {
    &&& a.goal@ == b.goal@
    &&& a.why_target@ == b.why_target@
    &&& a.resources@ == b.resources@
    &&& a.blockers@ == b.blockers@
    &&& a.withdrawal_conditions@ == b.withdrawal_conditions@
    &&& a.party_could_help == b.party_could_help
}

fn copy_words(v: &Vec<String>) -> (r: Vec<String>)
    ensures
        r@ == v@,
{
    let mut r: Vec<String> = Vec::new();
    let mut i: usize = 0;
    while i < v.len()
        invariant
            i <= v@.len(),
            r@ == v@.take(i as int),
        decreases v@.len() - i,
    {
        r.push(v[i].clone());
        proof {
            assert(r@ =~= v@.take(i + 1));
        }
        i = i + 1;
    }
    proof {
        assert(v@.take(v@.len() as int) =~= v@);
    }
    r
}

impl Explanation {
    /// An owned copy, word for word.
    pub fn duplicate(&self) -> (r: Explanation)
        ensures
            same_explanation(r, *self),
    {
        Explanation {
            goal: self.goal.clone(),
            why_target: self.why_target.clone(),
            resources: self.resources.clone(),
            blockers: copy_words(&self.blockers),
            withdrawal_conditions: self.withdrawal_conditions.clone(),
            party_could_help: self.party_could_help,
        }
    }
}

/// What the save holds of an issued directive: the directive as given,
/// standing, carrying the explanation the player was shown and its blockers.
pub open spec fn stored_as(stored: StrategicDirective, d: StrategicDirective, e: Explanation) -> bool {
    &&& stored == (StrategicDirective {
        state: DirectiveStatus::Active,
        explanation: stored.explanation,
        blocking_reasons: stored.blocking_reasons,
        ..d
    })
    &&& stored.explanation matches Some(x) && same_explanation(x, e)
    &&& stored.blocking_reasons@ == e.blockers@
}

/// No directive that has ended changes.
pub open spec fn endings_kept(before: StrMap<StrategicDirective>, after: StrMap<StrategicDirective>) -> bool {
    forall|k: Seq<char>|
        #![trigger after.contents()[k]]
        before.contents().contains_key(k) && before.contents()[k].state.ended() ==> after.contents().contains_key(k)
            && after.contents()[k] == before.contents()[k]
}

impl ExpeditionState {
    fn standing_directive_matching(&self, directive: &StrategicDirective, ignoring: Option<&str>) -> (r: Option<String>)
        ensures
            ({
                let ig = ignored(ignoring);
                match r {
                    Some(id) => exists|i: int| #[trigger] first_same(self.directives@, *directive, ig, i) && id@ == self.directives@[i].1.id@,
                    None => !exists|i: int| #[trigger] first_same(self.directives@, *directive, ig, i),
                }
            }),
    {
        let ghost ig = ignored(ignoring);
        let mut i: usize = 0;
        while i < self.directives.len()
            invariant
                i <= self.directives@.len(),
                ig == ignored(ignoring),
                forall|j: int| 0 <= j < i ==> !(ig != Some((#[trigger] self.directives@[j]).0) && says_the_same(self.directives@[j].1, *directive)),
            decreases self.directives@.len() - i,
        {
            let standing = self.directives.value_at(i);
            let skipped = match ignoring {
                Some(x) => str_eq(self.directives.key_at(i).as_str(), x),
                None => false,
            };
            if !skipped && standing.state == DirectiveStatus::Active && str_eq(standing.faction_id.as_str(), directive.faction_id.as_str())
                && standing.intent == directive.intent && crate::geography::opt_str_eq(&standing.target_node_id, &directive.target_node_id)
                && crate::geography::opt_str_eq(&standing.target_region_id, &directive.target_region_id)
                && crate::geography::opt_str_eq(&standing.target_faction_id, &directive.target_faction_id) {
                let id = standing.id.clone();
                proof {
                    assert(first_same(self.directives@, *directive, ig, i as int) && id@ == self.directives@[i as int].1.id@);
                }
                return Some(id);
            }
            i = i + 1;
        }
        proof {
            assert forall|k: int| !#[trigger] first_same(self.directives@, *directive, ig, k) by {
                if 0 <= k < self.directives@.len() {
                    assert(!(ig != Some(self.directives@[k].0) && says_the_same(self.directives@[k].1, *directive)));
                }
            }
        }
        None
    }

    /// Issuing's checks, made before anything changes.
    fn check_issue(&self, directive: &StrategicDirective, geography: &Geography, ignoring: Option<&str>) -> (r: Result<(), DirectiveError>)
        ensures
            ({
                let ig = ignored(ignoring);
                let stage = issue_stage(*self, *geography, *directive, ig);
                &&& (r is Ok <==> stage == 5)
                &&& (stage == 0 ==> (r matches Err(e) && e is Id))
                &&& (stage == 1 ==> (r matches Err(DirectiveError::UnknownFaction { faction_id }) && faction_id@ == directive.faction_id@))
                &&& (stage == 2 ==> (r matches Err(DirectiveError::UnknownCell { cell_id }) && directive.target_node_id matches Some(t)
                    && cell_id@ == t@))
                &&& (stage == 3 ==> (r matches Err(DirectiveError::DuplicateDirective { directive_id }) && directive_id@ == directive.id@))
                &&& (stage == 4 ==> exists|i: int|
                    #[trigger] first_same(self.directives@, *directive, ig, i) && (r matches Err(
                        DirectiveError::AlreadyStanding { directive_id, existing_id },
                    ) && directive_id@ == directive.id@ && existing_id@ == self.directives@[i].1.id@))
            }),
    {
        match directive.validate() {
            Err(e) => {
                return Err(e);
            },
            Ok(()) => {},
        }
        if !self.factions.contains_key(directive.faction_id.as_str()) {
            return Err(DirectiveError::UnknownFaction { faction_id: directive.faction_id.clone() });
        }
        match &directive.target_node_id {
            Some(cell_id) => {
                if geography.location(cell_id.as_str()).is_none() {
                    return Err(DirectiveError::UnknownCell { cell_id: cell_id.clone() });
                }
            },
            None => {},
        }
        let same_as_ignored = match ignoring {
            Some(x) => str_eq(directive.id.as_str(), x),
            None => false,
        };
        if self.directives.contains_key(directive.id.as_str()) && !same_as_ignored {
            return Err(DirectiveError::DuplicateDirective { directive_id: directive.id.clone() });
        }
        match self.standing_directive_matching(directive, ignoring) {
            Some(existing) => {
                let ghost ig = ignored(ignoring);
                let r = Err(DirectiveError::AlreadyStanding { directive_id: directive.id.clone(), existing_id: existing });
                proof {
                    let i = choose|i: int| #[trigger] first_same(self.directives@, *directive, ig, i) && existing@ == self.directives@[i].1.id@;
                    assert(issue_stage(*self, *geography, *directive, ig) == 4);
                }
                return r;
            },
            None => {},
        }
        proof {
            let ig = ignored(ignoring);
            assert(issue_stage(*self, *geography, *directive, ig) == 5);
        }
        Ok(())
    }

    /// Issue a directive. Refuses before anything changes: a malformed ID, a
    /// faction the campaign does not carry, a place the graph does not know,
    /// an ID already used, and a standing directive that already says this.
    /// The stored directive carries the very explanation returned.
    pub fn issue_directive(&mut self, directive: StrategicDirective, geography: &Geography) -> (r: Result<Explanation, DirectiveError>)
        ensures
            ({
                let stage = issue_stage(*old(self), *geography, directive, None);
                &&& (r is Ok <==> stage == 5)
                &&& (r is Err ==> *final(self) == *old(self))
                &&& (stage == 0 ==> (r matches Err(e) && e is Id))
                &&& (stage == 1 ==> (r matches Err(DirectiveError::UnknownFaction { faction_id }) && faction_id@ == directive.faction_id@))
                &&& (stage == 2 ==> (r matches Err(DirectiveError::UnknownCell { cell_id }) && directive.target_node_id matches Some(t)
                    && cell_id@ == t@))
                &&& (stage == 3 ==> (r matches Err(DirectiveError::DuplicateDirective { directive_id }) && directive_id@ == directive.id@))
                &&& (stage == 4 ==> exists|i: int|
                    #[trigger] first_same(old(self).directives@, directive, None, i) && (r matches Err(
                        DirectiveError::AlreadyStanding { directive_id, existing_id },
                    ) && directive_id@ == directive.id@ && existing_id@ == old(self).directives@[i].1.id@))
                &&& (r matches Ok(e) ==> {
                    &&& explains(*old(self), *geography, directive, None, e)
                    &&& final(self).directives.contents().contains_key(directive.id@)
                    &&& final(self).directives.contents() == old(self).directives.contents().insert(
                        directive.id@,
                        final(self).directives.contents()[directive.id@],
                    )
                    &&& stored_as(final(self).directives.contents()[directive.id@], directive, e)
                    &&& *final(self) == (ExpeditionState { directives: final(self).directives, ..*old(self) })
                })
            }),
            endings_kept(old(self).directives, final(self).directives),
    {
        match self.check_issue(&directive, geography, None) {
            Err(e) => {
                return Err(e);
            },
            Ok(()) => {},
        }
        let explanation = self.explain_directive(&directive, geography);
        let mut directive = directive;
        directive.state = DirectiveStatus::Active;
        directive.blocking_reasons = copy_words(&explanation.blockers);
        directive.explanation = Some(explanation.duplicate());
        let ghost stored = directive;
        let ghost before = self.directives.contents();
        self.directives.insert(directive.id.clone(), directive);
        proof {
            assert(self.directives.contents()[stored.id@] == stored);
            assert(self.directives.contents() =~= before.insert(stored.id@, stored));
        }
        Ok(explanation)
    }

    /// Replace a standing directive with a new one in one call. Refuses an
    /// unknown or ended directive, and every refusal issuing would make of
    /// the replacement, with the one being replaced left out of the
    /// collision checks; every refusal leaves the save as it was. On success
    /// the replacement is stored as issuing stores it and the one replaced is
    /// kept, superseded.
    #[verifier::rlimit(40)]
    pub fn supersede_directive(
        &mut self,
        existing_id: &str,
        replacement: StrategicDirective,
        geography: &Geography,
    ) -> (r: Result<Explanation, DirectiveError>)
        ensures
            r is Err ==> *final(self) == *old(self),
            !old(self).directives.contents().contains_key(existing_id@) ==> (r matches Err(DirectiveError::UnknownDirective { directive_id })
                && directive_id@ == existing_id@),
            old(self).directives.contents().contains_key(existing_id@) && old(self).directives.contents()[existing_id@].state.ended() ==> (
            r matches Err(DirectiveError::AlreadyEnded { directive_id, state }) && directive_id@ == existing_id@ && state
                == old(self).directives.contents()[existing_id@].state),
            ({
                let stage = issue_stage(*old(self), *geography, replacement, Some(existing_id@));
                old(self).directives.contents().contains_key(existing_id@) && !old(self).directives.contents()[existing_id@].state.ended() ==> {
                    &&& (r is Ok <==> stage == 5 && replacement.id@ != existing_id@)
                    &&& (stage == 0 ==> (r matches Err(e) && e is Id))
                    &&& (stage == 1 ==> (r matches Err(DirectiveError::UnknownFaction { faction_id }) && faction_id@ == replacement.faction_id@))
                    &&& (stage == 2 ==> (r matches Err(DirectiveError::UnknownCell { cell_id }) && replacement.target_node_id matches Some(t)
                        && cell_id@ == t@))
                    &&& (stage == 3 ==> (r matches Err(DirectiveError::DuplicateDirective { directive_id }) && directive_id@ == replacement.id@))
                    &&& (stage == 4 ==> (r matches Err(e) && e is AlreadyStanding))
                    &&& (stage == 5 && replacement.id@ == existing_id@ ==> (r matches Err(DirectiveError::DuplicateDirective { directive_id })
                        && directive_id@ == existing_id@))
                }
            }),
            r matches Ok(e) ==> {
                let previous = old(self).directives.contents()[existing_id@];
                let kept = StrategicDirective { state: DirectiveStatus::Superseded, ..previous };
                &&& explains(*old(self), *geography, replacement, Some(existing_id@), e)
                &&& replacement.id@ != existing_id@
                &&& final(self).directives.contents() == old(self).directives.contents().insert(
                    replacement.id@,
                    final(self).directives.contents()[replacement.id@],
                ).insert(existing_id@, kept)
                &&& stored_as(final(self).directives.contents()[replacement.id@], replacement, e)
                &&& final(self).directives.contents()[replacement.id@].state == DirectiveStatus::Active
                &&& *final(self) == (ExpeditionState { directives: final(self).directives, ..*old(self) })
            },
            endings_kept(old(self).directives, final(self).directives),
    {
        match self.directives.get(existing_id) {
            None => {
                return Err(DirectiveError::UnknownDirective { directive_id: owned(existing_id) });
            },
            Some(existing) => {
                if existing.state.is_terminal() {
                    return Err(DirectiveError::AlreadyEnded { directive_id: owned(existing_id), state: existing.state });
                }
            },
        }
        match self.check_issue(&replacement, geography, Some(existing_id)) {
            Err(e) => {
                return Err(e);
            },
            Ok(()) => {},
        }
        if str_eq(replacement.id.as_str(), existing_id) {
            return Err(DirectiveError::DuplicateDirective { directive_id: owned(existing_id) });
        }
        let explanation = self.explain_ignoring(&replacement, geography, Some(existing_id));
        let ghost start = self.directives.contents();
        {
            let mut directive = replacement;
            directive.state = DirectiveStatus::Active;
            directive.blocking_reasons = copy_words(&explanation.blockers);
            directive.explanation = Some(explanation.duplicate());
            let ghost stored = directive;
            self.directives.insert(directive.id.clone(), directive);
            proof {
                assert(self.directives.contents() =~= start.insert(stored.id@, stored));
            }
        }
        let ghost mid = self.directives.contents();
        match self.directives.get_mut(existing_id) {
            Some(previous) => {
                previous.state = DirectiveStatus::Superseded;
            },
            None => {},
        }
        proof {
            assert(self.directives.contents()[replacement.id@] == mid[replacement.id@]);
            assert(self.directives.contents() =~= start.insert(replacement.id@, self.directives.contents()[replacement.id@]).insert(
                existing_id@,
                StrategicDirective { state: DirectiveStatus::Superseded, ..start[existing_id@] },
            ));
        }
        Ok(explanation)
    }

    /// Move a directive to one of the five endings: the one writer of a
    /// directive's state after issue. An ending is final: an ended directive
    /// is refused rather than ended again, and a status that is not an ending
    /// is refused.
    pub fn mark_directive(&mut self, directive_id: &str, status: DirectiveStatus) -> (r: Result<(), DirectiveError>)
        ensures
            r is Err ==> *final(self) == *old(self),
            !status.ended() ==> (r matches Err(DirectiveError::NotAnEnding { state }) && state == status),
            status.ended() && !old(self).directives.contents().contains_key(directive_id@) ==> (r matches Err(
                DirectiveError::UnknownDirective { directive_id: x },
            ) && x@ == directive_id@),
            status.ended() && old(self).directives.contents().contains_key(directive_id@) && old(self).directives.contents()[directive_id@].state.ended()
                ==> (r matches Err(DirectiveError::AlreadyEnded { directive_id: x, state }) && x@ == directive_id@ && state
                == old(self).directives.contents()[directive_id@].state),
            r is Ok <==> status.ended() && old(self).directives.contents().contains_key(directive_id@)
                && !old(self).directives.contents()[directive_id@].state.ended(),
            r is Ok ==> final(self).directives.contents() == old(self).directives.contents().insert(
                directive_id@,
                StrategicDirective { state: status, ..old(self).directives.contents()[directive_id@] },
            ) && *final(self) == (ExpeditionState { directives: final(self).directives, ..*old(self) }),
            endings_kept(old(self).directives, final(self).directives),
    {
        if !status.is_terminal() {
            return Err(DirectiveError::NotAnEnding { state: status });
        }
        match self.directives.get(directive_id) {
            None => {
                return Err(DirectiveError::UnknownDirective { directive_id: owned(directive_id) });
            },
            Some(directive) => {
                if directive.state.is_terminal() {
                    return Err(DirectiveError::AlreadyEnded { directive_id: owned(directive_id), state: directive.state });
                }
            },
        }
        match self.directives.get_mut(directive_id) {
            Some(directive) => {
                directive.state = status;
            },
            None => {},
        }
        Ok(())
    }

    /// The player takes a directive back: marking it cancelled, and nothing
    /// else.
    pub fn cancel_directive(&mut self, directive_id: &str) -> (r: Result<(), DirectiveError>)
        ensures
            r is Err ==> *final(self) == *old(self),
            !old(self).directives.contents().contains_key(directive_id@) ==> (r matches Err(DirectiveError::UnknownDirective { directive_id: x })
                && x@ == directive_id@),
            old(self).directives.contents().contains_key(directive_id@) && old(self).directives.contents()[directive_id@].state.ended() ==> (
            r matches Err(DirectiveError::AlreadyEnded { directive_id: x, state }) && x@ == directive_id@ && state == old(self).directives.contents()[directive_id@].state),
            r is Ok <==> old(self).directives.contents().contains_key(directive_id@) && !old(self).directives.contents()[directive_id@].state.ended(),
            r is Ok ==> final(self).directives.contents() == old(self).directives.contents().insert(
                directive_id@,
                StrategicDirective { state: DirectiveStatus::Cancelled, ..old(self).directives.contents()[directive_id@] },
            ) && *final(self) == (ExpeditionState { directives: final(self).directives, ..*old(self) }),
            endings_kept(old(self).directives, final(self).directives),
    {
        self.mark_directive(directive_id, DirectiveStatus::Cancelled)
    }

    /// The standing directives a faction carries, in ID order. Ended ones
    /// stay in the save as history and are not returned.
    pub fn active_directives(&self, faction_id: &str) -> (r: Vec<&StrategicDirective>)
        ensures
            r@.map_values(|d: &StrategicDirective| *d) == standing_of(self.directives@, faction_id@),
    {
        let ghost ds = self.directives@;
        let mut r: Vec<&StrategicDirective> = Vec::new();
        let mut i: usize = 0;
        while i < self.directives.len()
            invariant
                i <= ds.len(),
                ds == self.directives@,
                r@.map_values(|d: &StrategicDirective| *d) == standing_of(ds.take(i as int), faction_id@),
            decreases ds.len() - i,
        {
            proof {
                assert(ds.take(i + 1).drop_last() =~= ds.take(i as int));
            }
            let d = self.directives.value_at(i);
            if str_eq(d.faction_id.as_str(), faction_id) && d.state == DirectiveStatus::Active {
                r.push(d);
            }
            proof {
                assert(r@.map_values(|d: &StrategicDirective| *d) =~= standing_of(ds.take(i + 1), faction_id@));
            }
            i = i + 1;
        }
        proof {
            assert(ds.take(ds.len() as int) =~= ds);
        }
        r
    }
}

/// The standing directives of one faction, in order.
pub open spec fn standing_of(ds: Seq<(Seq<char>, StrategicDirective)>, faction_id: Seq<char>) -> Seq<StrategicDirective>
    decreases ds.len(),
{
    if ds.len() == 0 {
        Seq::empty()
    } else {
        let rest = standing_of(ds.drop_last(), faction_id);
        let d = ds.last().1;
        if d.faction_id@ == faction_id && d.state == DirectiveStatus::Active {
            rest.push(d)
        } else {
            rest
        }
    }
}

} // verus!
