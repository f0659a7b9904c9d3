//! Authored site rules: the mechanics a dungeon's owner brings to its
//! spaces, in a closed vocabulary of effects, and the registry they load
//! into.

use vstd::prelude::*;

use crate::dungeon_content::SITE_RULE_ID_PREFIX;
use crate::expedition::{is_stable_id, require_stable_id};
use crate::keyed::{StrMap, StrSet};
use crate::text::{blank, is_blank, seq_starts_with, starts_with};

verus! {

/// The tomb's standing guard: the rule the Elves bring to most of its
/// spaces.
pub const GRAVE_WATCH: &'static str = "site_rule.tomb.grave_watch";

/// What a site rule does, in the vocabulary the engine understands.
#[derive(Clone, Copy, Debug, PartialEq, Eq, Structural)]
pub enum SiteRuleEffect {
    /// Guards regenerate this many points each combat round.
    GuardRegenPerRound(i32),
    /// The mechanic is undecided; the record names the decision.
    NeedsDecision(bool),
}

/// Why a site-rule record does not load.
#[derive(Clone, Debug, PartialEq, Eq)]
pub enum AuthoredSiteRuleError {
    MalformedId { value: String },
    WrongIdPrefix { found: String },
    NoDisplayName { id: String },
    GuardRegenNotPositive { id: String, amount: i32 },
    NeedsDecisionMustBeTrue { id: String },
    DuplicateSiteRule { id: String },
}

/// One authored site rule.
#[derive(Clone, Debug, PartialEq, Eq)]
pub struct AuthoredSiteRule {
    pub id: String,
    pub display_name: String,
    pub effect: SiteRuleEffect,
}

/// Whether a site-rule record may enter the registry: a stable ID in the
/// `site_rule.` namespace, a name that is not blank, and an effect that
/// means something.
pub open spec fn site_rule_valid(r: AuthoredSiteRule) -> bool {
    &&& is_stable_id(r.id@)
    &&& seq_starts_with(r.id@, SITE_RULE_ID_PREFIX@)
    &&& !blank(r.display_name@)
    &&& match r.effect {
        SiteRuleEffect::GuardRegenPerRound(amount) => amount > 0,
        SiteRuleEffect::NeedsDecision(flag) => flag,
    }
}

/// What checking a record answers.
pub open spec fn site_rule_checked(rule: AuthoredSiteRule, r: Result<(), AuthoredSiteRuleError>) -> bool {
    &&& (r is Ok <==> site_rule_valid(rule))
    &&& (!is_stable_id(rule.id@) ==> (r matches Err(AuthoredSiteRuleError::MalformedId { value }) && value@ == rule.id@))
    &&& (is_stable_id(rule.id@) && !seq_starts_with(rule.id@, SITE_RULE_ID_PREFIX@) ==> (r matches Err(
        AuthoredSiteRuleError::WrongIdPrefix { found },
    ) && found@ == rule.id@))
    &&& (is_stable_id(rule.id@) && seq_starts_with(rule.id@, SITE_RULE_ID_PREFIX@) && blank(rule.display_name@) ==> (r matches Err(
        AuthoredSiteRuleError::NoDisplayName { id },
    ) && id@ == rule.id@))
    &&& (is_stable_id(rule.id@) && seq_starts_with(rule.id@, SITE_RULE_ID_PREFIX@) && !blank(rule.display_name@) ==> match rule.effect {
        SiteRuleEffect::GuardRegenPerRound(amount) => amount <= 0 ==> (r matches Err(
            AuthoredSiteRuleError::GuardRegenNotPositive { id, amount: a },
        ) && id@ == rule.id@ && a == amount),
        SiteRuleEffect::NeedsDecision(flag) => !flag ==> (r matches Err(AuthoredSiteRuleError::NeedsDecisionMustBeTrue { id })
            && id@ == rule.id@),
    })
}

impl AuthoredSiteRule {
    /// Check a record, in order: its ID's shape, its namespace, its name,
    /// and its effect.
    pub fn validate(&self) -> (r: Result<(), AuthoredSiteRuleError>)
        ensures
            site_rule_checked(*self, r),
    {
        match require_stable_id("site_rule.id", self.id.as_str()) {
            Err(_) => {
                return Err(AuthoredSiteRuleError::MalformedId { value: self.id.clone() });
            },
            Ok(()) => {},
        }
        if !starts_with(self.id.as_str(), SITE_RULE_ID_PREFIX) {
            return Err(AuthoredSiteRuleError::WrongIdPrefix { found: self.id.clone() });
        }
        if is_blank(self.display_name.as_str()) {
            return Err(AuthoredSiteRuleError::NoDisplayName { id: self.id.clone() });
        }
        match self.effect {
            SiteRuleEffect::GuardRegenPerRound(amount) => {
                if amount <= 0 {
                    return Err(AuthoredSiteRuleError::GuardRegenNotPositive { id: self.id.clone(), amount });
                }
                Ok(())
            },
            SiteRuleEffect::NeedsDecision(flag) => {
                if !flag {
                    return Err(AuthoredSiteRuleError::NeedsDecisionMustBeTrue { id: self.id.clone() });
                }
                Ok(())
            },
        }
    }
}

/// The loaded site rules, keyed by ID. Insertion validates, so a rule that
/// does not validate cannot be in a registry at all.
#[derive(Clone, Debug, PartialEq, Eq)]
pub struct SiteRules {
    by_id: StrMap<AuthoredSiteRule>,
}

/// A site rule in force in one space: its ID and what it does.
#[derive(Clone, Debug, PartialEq, Eq)]
pub struct ActiveSiteRule {
    pub id: String,
    pub effect: SiteRuleEffect,
}

impl SiteRules {
    /// The loaded records, by ID.
    pub closed spec fn records(&self) -> Map<Seq<char>, AuthoredSiteRule> {
        self.by_id.contents()
    }

    /// The registry's walk, in ascending ID order.
    pub closed spec fn order(&self) -> Seq<(Seq<char>, AuthoredSiteRule)> {
        self.by_id@
    }

    /// The registry's walk holds its records and nothing else: every entry
    /// is a record under its key, every record has an entry, and, the keys
    /// ascending, no key comes twice.
    pub proof fn lemma_order_records(&self)
        requires
            crate::keyed::ascending(crate::keyed::keys_of(self.order())),
        ensures
            crate::keyed::keys_of(self.order()).no_duplicates(),
            forall|i: int|
                #![trigger self.order()[i]]
                0 <= i < self.order().len() ==> self.records().contains_key(self.order()[i].0) && self.records()[self.order()[i].0]
                    == self.order()[i].1,
            forall|k: Seq<char>| self.records().contains_key(k) ==> crate::keyed::keys_of(self.order()).contains(k),
    {
        crate::keyed::lemma_ascending_unique(crate::keyed::keys_of(self.order()));
        crate::keyed::lemma_entries_map(self.by_id@);
    }

    /// Every record in the registry validated on the way in, under its own
    /// ID.
    pub closed spec fn well_formed(&self) -> bool {
        forall|k: Seq<char>|
            #[trigger] self.by_id.contents().contains_key(k) ==> site_rule_valid(self.by_id.contents()[k]) && self.by_id.contents()[k].id@ == k
    }

    /// A well-formed registry files every record under its own ID, and
    /// every record it holds validates.
    pub proof fn lemma_filed_by_id(&self)
        requires
            self.well_formed(),
        ensures
            forall|k: Seq<char>|
                #[trigger] self.records().contains_key(k) ==> self.records()[k].id@ == k && site_rule_valid(self.records()[k]),
    {
    }

    pub fn new() -> (r: Self)
        ensures
            r.records() == Map::<Seq<char>, AuthoredSiteRule>::empty(),
            r.order().len() == 0,
            crate::keyed::ascending(crate::keyed::keys_of(r.order())),
            r.well_formed(),
    {
        SiteRules { by_id: StrMap::new() }
    }

    /// Load one record: it must validate, and its ID must be new.
    pub fn insert(&mut self, rule: AuthoredSiteRule) -> (r: Result<(), AuthoredSiteRuleError>)
        ensures
            !site_rule_valid(rule) ==> site_rule_checked(rule, r),
            r is Ok ==> final(self).order().len() == old(self).order().len() + 1,
            crate::keyed::ascending(crate::keyed::keys_of(old(self).order())) ==> crate::keyed::ascending(crate::keyed::keys_of(final(self).order())),
            r is Ok <==> site_rule_valid(rule) && !old(self).records().contains_key(rule.id@),
            r is Err ==> *final(self) == *old(self),
            site_rule_valid(rule) && old(self).records().contains_key(rule.id@) ==> (r matches Err(
                AuthoredSiteRuleError::DuplicateSiteRule { id },
            ) && id@ == rule.id@),
            r is Ok ==> final(self).records() == old(self).records().insert(rule.id@, rule),
            old(self).well_formed() ==> final(self).well_formed(),
    {
        match rule.validate() {
            Err(e) => {
                return Err(e);
            },
            Ok(()) => {},
        }
        if self.by_id.contains_key(rule.id.as_str()) {
            return Err(AuthoredSiteRuleError::DuplicateSiteRule { id: rule.id });
        }
        let key = rule.id.clone();
        self.by_id.insert(key, rule);
        Ok(())
    }

    pub fn get(&self, id: &str) -> (r: Option<&AuthoredSiteRule>)
        ensures
            match r {
                Some(x) => self.records().contains_key(id@) && *x == self.records()[id@],
                None => !self.records().contains_key(id@),
            },
    {
        self.by_id.get(id)
    }

    pub fn len(&self) -> (n: usize)
        ensures
            n == self.order().len(),
    {
        self.by_id.len()
    }

    pub fn is_empty(&self) -> (r: bool)
        ensures
            r == (self.order().len() == 0),
    {
        self.by_id.is_empty()
    }

    /// Every ID, in ascending order.
    pub fn ids(&self) -> (r: Vec<String>)
        ensures
            r@.len() == self.order().len(),
            forall|i: int| 0 <= i < r@.len() ==> #[trigger] r@[i]@ == self.order()[i].0,
    {
        self.by_id.keys()
    }

    /// The rules in force among those a space selects: each selected ID,
    /// in order, that is not suppressed and that the registry carries, with
    /// the registry's effect. An ID the registry lacks is passed over.
    pub fn in_force(&self, site_rule_ids: &Vec<String>, suppressed: &StrSet) -> (r: Vec<ActiveSiteRule>)
        ensures
            r@ == in_force_of(self.records(), site_rule_ids@, suppressed@),
    {
        let mut r: Vec<ActiveSiteRule> = Vec::new();
        let mut i: usize = 0;
        proof {
            assert(site_rule_ids@.take(0) =~= Seq::<String>::empty());
        }
        while i < site_rule_ids.len()
            invariant
                i <= site_rule_ids@.len(),
                r@ == in_force_of(self.records(), site_rule_ids@.take(i as int), suppressed@),
            decreases site_rule_ids@.len() - i,
        {
            proof {
                assert(site_rule_ids@.take(i + 1).drop_last() =~= site_rule_ids@.take(i as int));
            }
            let id = &site_rule_ids[i];
            if !suppressed.contains(id.as_str()) {
                match self.get(id.as_str()) {
                    Some(rule) => {
                        r.push(ActiveSiteRule { id: rule.id.clone(), effect: rule.effect });
                    },
                    None => {},
                }
            }
            i = i + 1;
        }
        proof {
            assert(site_rule_ids@.take(site_rule_ids@.len() as int) =~= site_rule_ids@);
        }
        r
    }
}

/// The rules in force among the selected IDs, in order.
pub open spec fn in_force_of(records: Map<Seq<char>, AuthoredSiteRule>, ids: Seq<String>, suppressed: Set<Seq<char>>) -> Seq<ActiveSiteRule>
    decreases ids.len(),
{
    if ids.len() == 0 {
        Seq::empty()
    } else {
        let rest = in_force_of(records, ids.drop_last(), suppressed);
        let id = ids.last()@;
        if !suppressed.contains(id) && records.contains_key(id) {
            rest.push(ActiveSiteRule { id: records[id].id, effect: records[id].effect })
        } else {
            rest
        }
    }
}

} // verus!
