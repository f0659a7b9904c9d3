//! How a woman's relationship to Captain Michael and his faction stands.
//!
//! Attraction creates openings; it does not resolve allegiance. Stages advance
//! only through authored milestones: [`RecruitmentState::record_milestone`] is
//! the only mutation that moves [`RecruitmentState::recruitment_stage`], and it
//! moves it only when an authored [`MilestoneRule`] says this milestone, from
//! where she stands now, is the beat that moves her. Disposition values cannot
//! be read back out of this module as numbers; the presentation layer is given
//! [`RecruitmentProjection`] and nothing else.

use vstd::prelude::*;

use crate::faction::FACTION_ID_PREFIX;
use crate::expedition::{invalid_id, is_stable_id, require_stable_id, ExpeditionError};
use crate::keyed::{StrMap, StrSet};
use crate::text::{owned, seq_starts_with, starts_with};

verus! {


/// How far a woman's relationship to Captain Michael's faction has come.
#[derive(Clone, Copy, Debug, PartialEq, Eq, PartialOrd, Ord, Structural)]
pub enum RecruitmentStage {
    Unaware,
    Aware,
    Interested,
    Contact,
    Committed,
    Joined,
    Integrated,
}

impl Default for RecruitmentStage {
    /// She does not know who he is.
    fn default() -> (r: Self)
        ensures
            r == RecruitmentStage::Unaware,
    {
        RecruitmentStage::Unaware
    }
}

impl RecruitmentStage {
    /// Position on the ladder.
    pub open spec fn rank_of(self) -> nat {
        match self {
            RecruitmentStage::Unaware => 0,
            RecruitmentStage::Aware => 1,
            RecruitmentStage::Interested => 2,
            RecruitmentStage::Contact => 3,
            RecruitmentStage::Committed => 4,
            RecruitmentStage::Joined => 5,
            RecruitmentStage::Integrated => 6,
        }
    }

    /// The word the bridge shows.
    pub open spec fn word(self) -> Seq<char> {
        match self {
            RecruitmentStage::Unaware => "unaware"@,
            RecruitmentStage::Aware => "aware"@,
            RecruitmentStage::Interested => "interested"@,
            RecruitmentStage::Contact => "contact"@,
            RecruitmentStage::Committed => "committed"@,
            RecruitmentStage::Joined => "joined"@,
            RecruitmentStage::Integrated => "integrated"@,
        }
    }

    /// The one place the ladder's order is written down.
    pub fn rank(self) -> (r: u8)
        ensures
            r == self.rank_of(),
    {
        match self {
            RecruitmentStage::Unaware => 0,
            RecruitmentStage::Aware => 1,
            RecruitmentStage::Interested => 2,
            RecruitmentStage::Contact => 3,
            RecruitmentStage::Committed => 4,
            RecruitmentStage::Joined => 5,
            RecruitmentStage::Integrated => 6,
        }
    }

    /// The exact string the bridge shows.
    pub fn as_str(self) -> (r: &'static str)
        ensures
            r@ == self.word(),
    {
        match self {
            RecruitmentStage::Unaware => "unaware",
            RecruitmentStage::Aware => "aware",
            RecruitmentStage::Interested => "interested",
            RecruitmentStage::Contact => "contact",
            RecruitmentStage::Committed => "committed",
            RecruitmentStage::Joined => "joined",
            RecruitmentStage::Integrated => "integrated",
        }
    }
}

/// One disposition value, 0..=100. It can be built and compared; there is no
/// way to read the number back out.
#[derive(Clone, Copy, Debug, Default, PartialEq, Eq, PartialOrd, Ord)]
pub struct Disposition(u8);

impl Disposition {
    pub closed spec fn level(self) -> int {
        self.0 as int
    }

    /// Clamps at a hundred rather than refusing.
    pub fn new(value: u8) -> (r: Self)
        ensures
            r.level() == if value > 100 { 100 } else { value as int },
    {
        Disposition(if value > 100 { 100 } else { value })
    }

    fn below(self, other: Disposition) -> (r: bool)
        ensures
            r == (self.level() < other.level()),
    {
        self.0 < other.0
    }
}

/// The named dispositions a milestone rule may test.
#[derive(Clone, Copy, Debug, PartialEq, Eq, PartialOrd, Ord, Structural)]
pub enum Inclination {
    AwarenessOfMichael,
    AttractionToMichael,
    RomanticInterest,
    TrustInMichael,
    IdeologicalAlignment,
    DissatisfactionWithOrigin,
    Ambition,
    PerceivedSafety,
    PerceivedOpportunity,
    FearOfRetaliation,
}

/// The disposition an inclination names.
pub open spec fn disposition_of(s: RecruitmentState, i: Inclination) -> Disposition {
    match i {
        Inclination::AwarenessOfMichael => s.awareness_of_michael,
        Inclination::AttractionToMichael => s.attraction_to_michael,
        Inclination::RomanticInterest => s.romantic_interest,
        Inclination::TrustInMichael => s.trust_in_michael,
        Inclination::IdeologicalAlignment => s.ideological_alignment,
        Inclination::DissatisfactionWithOrigin => s.dissatisfaction_with_origin,
        Inclination::Ambition => s.ambition,
        Inclination::PerceivedSafety => s.perceived_safety,
        Inclination::PerceivedOpportunity => s.perceived_opportunity,
        Inclination::FearOfRetaliation => s.fear_of_retaliation,
    }
}

impl Inclination {
    /// The only reader of a disposition value, and it returns a
    /// `Disposition`, not a number.
    fn read(self, state: &RecruitmentState) -> (r: Disposition)
        ensures
            r == disposition_of(*state, self),
    {
        match self {
            Inclination::AwarenessOfMichael => state.awareness_of_michael,
            Inclination::AttractionToMichael => state.attraction_to_michael,
            Inclination::RomanticInterest => state.romantic_interest,
            Inclination::TrustInMichael => state.trust_in_michael,
            Inclination::IdeologicalAlignment => state.ideological_alignment,
            Inclination::DissatisfactionWithOrigin => state.dissatisfaction_with_origin,
            Inclination::Ambition => state.ambition,
            Inclination::PerceivedSafety => state.perceived_safety,
            Inclination::PerceivedOpportunity => state.perceived_opportunity,
            Inclination::FearOfRetaliation => state.fear_of_retaliation,
        }
    }
}

/// What an authored milestone does to one woman's arc. A rule that does not
/// apply is not an error: the beat is recorded and she stays where she is.
#[derive(Clone, Debug, Default, PartialEq, Eq)]
pub struct MilestoneRule {
    /// Where this beat can carry her. It only ever advances.
    pub advances_to: RecruitmentStage,
    /// She must stand at least here for the beat to land.
    pub requires_stage_at_least: RecruitmentStage,
    /// Minimum dispositions; every entry must be met.
    pub requires_at_least: Vec<(Inclination, Disposition)>,
    /// Maximum dispositions; every entry must be met.
    pub requires_at_most: Vec<(Inclination, Disposition)>,
    /// Outstanding conditions of hers that block this beat while they stand.
    pub blocked_by_conditions: StrSet,
    /// Conditions this beat settles, cleared before the rest is judged.
    pub clears_conditions: StrSet,
}

/// Whether `rule` moves a woman standing at `stage`, with outstanding
/// `conditions` and the dispositions of `s`.
pub open spec fn permits(
    rule: MilestoneRule,
    stage: RecruitmentStage,
    conditions: Set<Seq<char>>,
    s: RecruitmentState,
) -> bool {
    &&& rule.advances_to.rank_of() > stage.rank_of()
    &&& stage.rank_of() >= rule.requires_stage_at_least.rank_of()
    &&& rule.blocked_by_conditions@.disjoint(conditions)
    &&& forall|i: int|
        0 <= i < rule.requires_at_least@.len() ==> !(disposition_of(
            s,
            (#[trigger] rule.requires_at_least@[i]).0,
        ).level() < rule.requires_at_least@[i].1.level())
    &&& forall|i: int|
        0 <= i < rule.requires_at_most@.len() ==> !(rule.requires_at_most@[i].1.level()
            < disposition_of(s, (#[trigger] rule.requires_at_most@[i]).0).level())
}

impl MilestoneRule {
    /// The single predicate, judged after conditions are cleared.
    fn permits_advance(&self, state: &RecruitmentState) -> (r: bool)
        ensures
            r == permits(*self, state.recruitment_stage, state.conditions@, *state),
    {
        if self.advances_to.rank() <= state.recruitment_stage.rank() {
            return false;
        }
        if state.recruitment_stage.rank() < self.requires_stage_at_least.rank() {
            return false;
        }
        proof {
            self.blocked_by_conditions.lemma_order();
        }
        let mut i: usize = 0;
        while i < self.blocked_by_conditions.len()
            invariant
                i <= self.blocked_by_conditions.order().len(),
                forall|j: int| 0 <= j < i ==> !state.conditions@.contains(
                    #[trigger] self.blocked_by_conditions.order()[j],
                ),
            decreases self.blocked_by_conditions.order().len() - i,
        {
            if state.conditions.contains(self.blocked_by_conditions.at(i).as_str()) {
                return false;
            }
            i = i + 1;
        }
        proof {
            assert forall|c: Seq<char>| self.blocked_by_conditions@.contains(c) implies !state.conditions@.contains(c) by {
                let k = choose|k: int| 0 <= k < self.blocked_by_conditions.order().len() && self.blocked_by_conditions.order()[k] == c;
                assert(!state.conditions@.contains(self.blocked_by_conditions.order()[k]));
            }
        }
        let mut i: usize = 0;
        while i < self.requires_at_least.len()
            invariant
                i <= self.requires_at_least@.len(),
                forall|j: int|
                    0 <= j < i ==> !(disposition_of(*state, (#[trigger] self.requires_at_least@[j]).0).level()
                        < self.requires_at_least@[j].1.level()),
            decreases self.requires_at_least@.len() - i,
        {
            let (inclination, floor) = self.requires_at_least[i];
            if inclination.read(state).below(floor) {
                return false;
            }
            i = i + 1;
        }
        let mut i: usize = 0;
        while i < self.requires_at_most.len()
            invariant
                i <= self.requires_at_most@.len(),
                forall|j: int|
                    0 <= j < i ==> !(self.requires_at_most@[j].1.level() < disposition_of(
                        *state,
                        (#[trigger] self.requires_at_most@[j]).0,
                    ).level()),
            decreases self.requires_at_most@.len() - i,
        {
            let (inclination, ceiling) = self.requires_at_most[i];
            if ceiling.below(inclination.read(state)) {
                return false;
            }
            i = i + 1;
        }
        true
    }
}

/// Everything the presentation layer is ever told about a recruitment arc.
#[derive(Clone, Debug, PartialEq, Eq)]
pub struct RecruitmentProjection {
    /// The stage word.
    pub recruitment_stage: &'static str,
    /// The last authored milestone recorded for her, if any.
    pub current_beat_id: Option<String>,
}

/// One woman's recruitment arc.
#[derive(Clone, Debug, Default, PartialEq, Eq)]
pub struct RecruitmentState {
    pub character_id: String,
    /// `faction.<concept_key>`, or `None` for a woman with no faction behind her.
    pub origin_faction_id: Option<String>,
    pub current_faction_id: Option<String>,
    pub role: Option<String>,
    pub awareness_of_michael: Disposition,
    pub attraction_to_michael: Disposition,
    pub romantic_interest: Disposition,
    pub trust_in_michael: Disposition,
    pub trust_in_companions: StrMap<Disposition>,
    pub ideological_alignment: Disposition,
    pub dissatisfaction_with_origin: Disposition,
    pub ambition: Disposition,
    pub personal_obligations: StrSet,
    pub perceived_safety: Disposition,
    pub perceived_opportunity: Disposition,
    pub fear_of_retaliation: Disposition,
    /// Moved only by `record_milestone`.
    pub recruitment_stage: RecruitmentStage,
    /// Authored condition IDs still outstanding.
    pub conditions: StrSet,
    pub followers: StrSet,
    pub retained_relationships: StrMap<String>,
    pub integration_state: Option<String>,
    pub loyalty_state: Option<String>,
    /// The authored milestone table for her arc, by milestone ID.
    pub milestone_rules: StrMap<MilestoneRule>,
    /// Which milestones have already played.
    pub recorded_milestones: StrSet,
    /// The last milestone recorded.
    pub current_beat_id: Option<String>,
}

/// A recruitment record's faction field is absent or a `faction.` stable ID.
pub open spec fn faction_field_ok(id: Option<String>) -> bool {
    match id {
        Some(v) => is_stable_id(v@) && seq_starts_with(v@, FACTION_ID_PREFIX@),
        None => true,
    }
}

/// Whether a recruitment record has the right shape.
pub open spec fn recruitment_valid(s: RecruitmentState) -> bool {
    &&& is_stable_id(s.character_id@)
    &&& faction_field_ok(s.origin_faction_id)
    &&& faction_field_ok(s.current_faction_id)
    &&& match s.role {
        Some(r) => is_stable_id(r@),
        None => true,
    }
}

fn check_faction_field(field: &'static str, id: &Option<String>) -> (r: Result<(), ExpeditionError>)
    ensures
        r is Ok <==> faction_field_ok(*id),
        r matches Err(e) ==> (id matches Some(v) && invalid_id(e, field, v@)),
{
    match id {
        Some(v) => {
            match require_stable_id(field, v.as_str()) {
                Err(e) => return Err(e),
                Ok(()) => {},
            }
            if !starts_with(v.as_str(), FACTION_ID_PREFIX) {
                return Err(ExpeditionError::InvalidStableId { field, value: v.clone() });
            }
            Ok(())
        },
        None => Ok(()),
    }
}

/// What playing milestone `m` does to an arc that stood at `before`: a beat
/// already recorded changes nothing and answers `None`; otherwise the beat is
/// recorded and becomes current, the conditions its rule settles are cleared,
/// and she moves to the rule's stage only where the rule permits it.
pub open spec fn milestone_played(
    before: RecruitmentState,
    after: RecruitmentState,
    m: Seq<char>,
    r: Option<RecruitmentStage>,
) -> bool {
    if before.recorded_milestones@.contains(m) {
        r is None && after == before
    } else {
        let rules = before.milestone_rules.contents();
        let ruled = rules.contains_key(m);
        let rule = rules[m];
        let cleared = if ruled {
            before.conditions@.difference(rule.clears_conditions@)
        } else {
            before.conditions@
        };
        let stage = if ruled && permits(rule, before.recruitment_stage, cleared, before) {
            rule.advances_to
        } else {
            before.recruitment_stage
        };
        &&& r == Some(stage)
        &&& after.recruitment_stage == stage
        &&& after.conditions@ == cleared
        &&& after.recorded_milestones@ == before.recorded_milestones@.insert(m)
        &&& after.current_beat_id matches Some(b) && b@ == m
        &&& after == (RecruitmentState {
            recruitment_stage: after.recruitment_stage,
            conditions: after.conditions,
            recorded_milestones: after.recorded_milestones,
            current_beat_id: after.current_beat_id,
            ..before
        })
    }
}

/// Recording a milestone never moves a woman down the ladder: her stage
/// afterward ranks at least as high as before, it is the stage returned, and
/// where it changed it is the stage the milestone's rule advances to.
pub proof fn lemma_milestone_never_lowers(before: RecruitmentState, after: RecruitmentState, m: Seq<char>, r: Option<RecruitmentStage>)
    requires
        milestone_played(before, after, m, r),
    ensures
        after.recruitment_stage.rank_of() >= before.recruitment_stage.rank_of(),
        r matches Some(st) ==> st == after.recruitment_stage,
        after.recruitment_stage != before.recruitment_stage ==> before.milestone_rules.contents().contains_key(m)
            && after.recruitment_stage == before.milestone_rules.contents()[m].advances_to
            && after.recruitment_stage.rank_of() > before.recruitment_stage.rank_of(),
{
}

/// The first `n` members of `order`, as a set.
pub open spec fn cleared_upto(order: Seq<Seq<char>>, n: int) -> Set<Seq<char>> {
    Set::new(|c: Seq<char>| exists|j: int| 0 <= j < n && #[trigger] order[j] == c)
}

impl RecruitmentState {
    /// A woman who has not met him and owes this simulation nothing yet.
    pub fn new(character_id: &str) -> (r: Self)
        ensures
            r.character_id@ == character_id@,
            r.recruitment_stage == RecruitmentStage::Unaware,
            r.current_beat_id is None,
            r.recorded_milestones@ == Set::<Seq<char>>::empty(),
            r.conditions@ == Set::<Seq<char>>::empty(),
            r.milestone_rules@.len() == 0,
            r.origin_faction_id is None,
            r.current_faction_id is None,
            r.role is None,
    {
        RecruitmentState {
            character_id: owned(character_id),
            origin_faction_id: None,
            current_faction_id: None,
            role: None,
            awareness_of_michael: Disposition::new(0),
            attraction_to_michael: Disposition::new(0),
            romantic_interest: Disposition::new(0),
            trust_in_michael: Disposition::new(0),
            trust_in_companions: StrMap::new(),
            ideological_alignment: Disposition::new(0),
            dissatisfaction_with_origin: Disposition::new(0),
            ambition: Disposition::new(0),
            personal_obligations: StrSet::new(),
            perceived_safety: Disposition::new(0),
            perceived_opportunity: Disposition::new(0),
            fear_of_retaliation: Disposition::new(0),
            recruitment_stage: RecruitmentStage::Unaware,
            conditions: StrSet::new(),
            followers: StrSet::new(),
            retained_relationships: StrMap::new(),
            integration_state: None,
            loyalty_state: None,
            milestone_rules: StrMap::new(),
            recorded_milestones: StrSet::new(),
            current_beat_id: None,
        }
    }

    /// Structural shape only: stable IDs are lowercase-dotted, and a faction
    /// ID is a concept key's `faction.` ID.
    pub fn validate(&self) -> (r: Result<(), ExpeditionError>)
        ensures
            r is Ok <==> recruitment_valid(*self),
            !is_stable_id(self.character_id@) ==> (r matches Err(e) && invalid_id(
                e,
                "recruitment.character_id",
                self.character_id@,
            )),
            is_stable_id(self.character_id@) && !faction_field_ok(self.origin_faction_id) ==> (r matches Err(e)
                && self.origin_faction_id matches Some(v) && invalid_id(e, "recruitment.origin_faction_id", v@)),
    {
        match require_stable_id("recruitment.character_id", self.character_id.as_str()) {
            Err(e) => return Err(e),
            Ok(()) => {},
        }
        match check_faction_field("recruitment.origin_faction_id", &self.origin_faction_id) {
            Err(e) => return Err(e),
            Ok(()) => {},
        }
        match check_faction_field("recruitment.current_faction_id", &self.current_faction_id) {
            Err(e) => return Err(e),
            Ok(()) => {},
        }
        match &self.role {
            Some(role) => require_stable_id("recruitment.role", role.as_str()),
            None => Ok(()),
        }
    }

    /// Plays one authored milestone.
    ///
    /// `None`, with nothing changed, if this milestone has already been
    /// recorded. Otherwise the beat is recorded and becomes the current one;
    /// the conditions its rule settles are cleared; and she moves to the
    /// rule's stage only if the rule permits it from where she now stands.
    /// Returns her stage afterward.
    pub fn record_milestone(&mut self, milestone_id: &str) -> (r: Option<RecruitmentStage>)
        ensures
            milestone_played(*old(self), *final(self), milestone_id@, r),
    {
        if self.recorded_milestones.contains(milestone_id) {
            return None;
        }
        self.recorded_milestones.insert(owned(milestone_id));
        self.current_beat_id = Some(owned(milestone_id));
        match self.milestone_rules.get(milestone_id) {
            None => {},
            Some(rule) => {
                let ghost before = self.conditions@;
                let ghost pre = *self;
                proof {
                    rule.clears_conditions.lemma_order();
                }
                let mut i: usize = 0;
                while i < rule.clears_conditions.len()
                    invariant
                        i <= rule.clears_conditions.order().len(),
                        self.conditions@ == before.difference(
                            cleared_upto(rule.clears_conditions.order(), i as int),
                        ),
                        *self == (RecruitmentState { conditions: self.conditions, ..pre }),
                    decreases rule.clears_conditions.order().len() - i,
                {
                    let c = rule.clears_conditions.at(i);
                    self.conditions.remove(c.as_str());
                    proof {
                        let o = rule.clears_conditions.order();
                        assert(cleared_upto(o, i + 1) =~= cleared_upto(o, i as int).insert(o[i as int])) by {
                            assert forall|x: Seq<char>| cleared_upto(o, i + 1).contains(x) implies
                                cleared_upto(o, i as int).insert(o[i as int]).contains(x) by {
                                let j = choose|j: int| 0 <= j < i + 1 && #[trigger] o[j] == x;
                                if j < i {
                                    assert(cleared_upto(o, i as int).contains(x));
                                }
                            }
                            assert forall|x: Seq<char>| cleared_upto(o, i as int).insert(o[i as int]).contains(x) implies
                                cleared_upto(o, i + 1).contains(x) by {
                                if x == o[i as int] {
                                    assert(o[i as int] == x);
                                } else {
                                    let j = choose|j: int| 0 <= j < i && #[trigger] o[j] == x;
                                    assert(o[j] == x);
                                }
                            }
                        }
                        assert(self.conditions@ =~= before.difference(cleared_upto(o, i + 1)));
                    }
                    i = i + 1;
                }
                proof {
                    let o = rule.clears_conditions.order();
                    assert forall|c: Seq<char>| cleared_upto(o, o.len() as int).contains(c) <==> rule.clears_conditions@.contains(c) by {
                        if cleared_upto(o, o.len() as int).contains(c) {
                            let k = choose|k: int| 0 <= k < o.len() && #[trigger] o[k] == c;
                            assert(rule.clears_conditions@.contains(o[k]));
                        }
                        if rule.clears_conditions@.contains(c) {
                            assert(o.contains(c));
                            let k = choose|k: int| 0 <= k < o.len() && o[k] == c;
                            assert(o[k] == c);
                        }
                    }
                    assert(cleared_upto(o, o.len() as int) =~= rule.clears_conditions@);
                    assert forall|inc: Inclination| #[trigger] disposition_of(*self, inc) == disposition_of(*old(self), inc) by {
                        match inc {
                            _ => {},
                        }
                    }
                }
                if rule.permits_advance(self) {
                    self.recruitment_stage = rule.advances_to;
                }
            },
        }
        Some(self.recruitment_stage)
    }

    /// Everything the bridge may see: a stage word and the current beat.
    pub fn projection(&self) -> (r: RecruitmentProjection)
        ensures
            r.recruitment_stage@ == self.recruitment_stage.word(),
            match self.current_beat_id {
                Some(b) => r.current_beat_id matches Some(c) && c@ == b@,
                None => r.current_beat_id is None,
            },
    {
        RecruitmentProjection {
            recruitment_stage: self.recruitment_stage.as_str(),
            current_beat_id: match &self.current_beat_id {
                Some(b) => Some(b.clone()),
                None => None,
            },
        }
    }
}

} // verus!
