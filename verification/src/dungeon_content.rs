//! The authored dungeon record: a dungeon's spaces, in order, and the site
//! rules each owning faction brings to them, selected by a dungeon context.

use vstd::prelude::*;

use crate::dungeon::DungeonContext;
use crate::expedition::{is_stable_id, require_stable_id};
use crate::faction::ConceptKey;
use crate::text::{owned, push_str, seq_starts_with, starts_with, str_eq};

verus! {

/// The prefix every dungeon record's ID carries.
pub const DUNGEON_ID_PREFIX: &'static str = "dungeon.";

/// The prefix every site rule's ID carries.
pub const SITE_RULE_ID_PREFIX: &'static str = "site_rule.";

/// The one dungeon the vertical slice authors.
pub const TOMB_OF_RETURNING_NAMES: &'static str = "dungeon.tomb_of_returning_names";

/// Why a dungeon record does not load.
#[derive(Clone, Debug, PartialEq, Eq)]
pub enum AuthoredDungeonError {
    MalformedId { field: &'static str, value: String },
    WrongIdPrefix { found: String, expected: &'static str },
    NoSpaces { id: String },
    SpaceIdDoesNotMatch { found: String, expected: String },
    DuplicateSpace { space: String },
    NoSiteRules { space: String, field: &'static str },
    OwnerAndVariantAreTheSame { concept_key: ConceptKey },
    VariantIsAPaletteSwap { space: String },
}

/// One authored space of a dungeon.
#[derive(Clone, Debug, PartialEq, Eq)]
pub struct AuthoredSpace {
    pub id: String,
    pub space: String,
    pub display_name: String,
    pub purpose: String,
    pub persistent_proof: String,
    pub world_cell_id: Option<String>,
    pub site_rule_ids: Vec<String>,
    pub corrupted_site_rule_ids: Vec<String>,
    pub note: String,
}

/// One authored dungeon.
#[derive(Clone, Debug, PartialEq, Eq)]
pub struct AuthoredDungeon {
    pub id: String,
    pub display_name: String,
    pub default_owner_concept_key: ConceptKey,
    pub corrupted_variant_concept_key: ConceptKey,
    pub spaces: Vec<AuthoredSpace>,
}

/// The ID a space of this dungeon must carry.
pub open spec fn space_id_of(dungeon_id: Seq<char>, space: Seq<char>) -> Seq<char> {
    dungeon_id + ".space."@ + space
}

/// A site rule ID that loads: a stable ID in the `site_rule.` namespace.
pub open spec fn rule_id_ok(id: Seq<char>) -> bool {
    is_stable_id(id) && seq_starts_with(id, SITE_RULE_ID_PREFIX@)
}

/// A list of site rules that loads: not empty, every ID loads.
pub open spec fn rules_ok(rules: Seq<String>) -> bool {
    rules.len() > 0 && forall|i: int| 0 <= i < rules.len() ==> rule_id_ok(#[trigger] rules[i]@)
}

/// The texts of a list of IDs.
pub open spec fn texts(rules: Seq<String>) -> Seq<Seq<char>> {
    rules.map_values(|r: String| r@)
}

/// Space `i` is sound, given the ones before it: its ID is the dungeon's,
/// its name is new, both selections load, and the corrupted variant selects
/// something other than the default.
pub open spec fn space_ok(d: AuthoredDungeon, i: int) -> bool {
    let s = d.spaces@[i];
    &&& s.id@ == space_id_of(d.id@, s.space@)
    &&& forall|j: int| 0 <= j < i ==> (#[trigger] d.spaces@[j]).space@ != s.space@
    &&& rules_ok(s.site_rule_ids@)
    &&& rules_ok(s.corrupted_site_rule_ids@)
    &&& texts(s.site_rule_ids@) != texts(s.corrupted_site_rule_ids@)
}

/// Whether a dungeon record loads.
pub open spec fn dungeon_valid(d: AuthoredDungeon) -> bool {
    &&& is_stable_id(d.id@)
    &&& seq_starts_with(d.id@, DUNGEON_ID_PREFIX@)
    &&& d.default_owner_concept_key != d.corrupted_variant_concept_key
    &&& d.spaces@.len() > 0
    &&& forall|i: int| 0 <= i < d.spaces@.len() ==> #[trigger] space_ok(d, i)
}

/// How a bad list of site rules is refused: its first ID that does not
/// load, as malformed or as in the wrong namespace.
pub open spec fn bad_rule_error(e: AuthoredDungeonError, rules: Seq<String>) -> bool {
    exists|k: int|
        0 <= k < rules.len() && !rule_id_ok(#[trigger] rules[k]@) && (forall|m: int| 0 <= m < k ==> rule_id_ok(#[trigger] rules[m]@)) && if !is_stable_id(
            rules[k]@,
        ) {
            e matches AuthoredDungeonError::MalformedId { field, value } && field == "site_rule_id" && value@ == rules[k]@
        } else {
            e matches AuthoredDungeonError::WrongIdPrefix { found, expected } && found@ == rules[k]@ && expected == SITE_RULE_ID_PREFIX
        }
}

/// The refusal one unsound space gets, its checks made in order.
pub open spec fn space_error(d: AuthoredDungeon, i: int, e: AuthoredDungeonError) -> bool {
    let s = d.spaces@[i];
    if s.id@ != space_id_of(d.id@, s.space@) {
        e matches AuthoredDungeonError::SpaceIdDoesNotMatch { found, expected } && found@ == s.id@ && expected@ == space_id_of(d.id@, s.space@)
    } else if exists|j: int| 0 <= j < i && (#[trigger] d.spaces@[j]).space@ == s.space@ {
        e matches AuthoredDungeonError::DuplicateSpace { space } && space@ == s.space@
    } else if s.site_rule_ids@.len() == 0 {
        e matches AuthoredDungeonError::NoSiteRules { space, field } && space@ == s.space@ && field == "site_rule_ids"
    } else if !rules_ok(s.site_rule_ids@) {
        bad_rule_error(e, s.site_rule_ids@)
    } else if s.corrupted_site_rule_ids@.len() == 0 {
        e matches AuthoredDungeonError::NoSiteRules { space, field } && space@ == s.space@ && field == "corrupted_site_rule_ids"
    } else if !rules_ok(s.corrupted_site_rule_ids@) {
        bad_rule_error(e, s.corrupted_site_rule_ids@)
    } else {
        e matches AuthoredDungeonError::VariantIsAPaletteSwap { space } && space@ == s.space@
    }
}

/// Check one list of site rules.
fn check_rules(space: &AuthoredSpace, field: &'static str, rules: &Vec<String>) -> (r: Result<(), AuthoredDungeonError>)
    ensures
        r is Ok <==> rules_ok(rules@),
        rules@.len() == 0 ==> (r matches Err(AuthoredDungeonError::NoSiteRules { space: x, field: f }) && x@ == space.space@ && f == field),
        rules@.len() > 0 && !rules_ok(rules@) ==> (r matches Err(e) && bad_rule_error(e, rules@)),
{
    if rules.len() == 0 {
        return Err(AuthoredDungeonError::NoSiteRules { space: space.space.clone(), field });
    }
    let mut i: usize = 0;
    while i < rules.len()
        invariant
            i <= rules@.len(),
            rules@.len() > 0,
            forall|m: int| 0 <= m < i ==> rule_id_ok(#[trigger] rules@[m]@),
        decreases rules@.len() - i,
    {
        let rule_id = &rules[i];
        match require_stable_id("site_rule_id", rule_id.as_str()) {
            Err(_) => {
                let e = AuthoredDungeonError::MalformedId { field: "site_rule_id", value: rule_id.clone() };
                proof {
                    assert(!rule_id_ok(rules@[i as int]@));
                }
                return Err(e);
            },
            Ok(()) => {},
        }
        if !starts_with(rule_id.as_str(), SITE_RULE_ID_PREFIX) {
            let e = AuthoredDungeonError::WrongIdPrefix { found: rule_id.clone(), expected: SITE_RULE_ID_PREFIX };
            proof {
                assert(!rule_id_ok(rules@[i as int]@));
            }
            return Err(e);
        }
        i = i + 1;
    }
    Ok(())
}

fn same_rules(a: &Vec<String>, b: &Vec<String>) -> (r: bool)
    ensures
        r == (texts(a@) == texts(b@)),
{
    if a.len() != b.len() {
        proof {
            assert(texts(a@).len() != texts(b@).len());
        }
        return false;
    }
    let mut i: usize = 0;
    while i < a.len()
        invariant
            i <= a@.len(),
            a@.len() == b@.len(),
            forall|m: int| 0 <= m < i ==> a@[m]@ == b@[m]@,
        decreases a@.len() - i,
    {
        if !str_eq(a[i].as_str(), b[i].as_str()) {
            proof {
                assert(texts(a@)[i as int] != texts(b@)[i as int]);
            }
            return false;
        }
        i = i + 1;
    }
    proof {
        assert(texts(a@) =~= texts(b@));
    }
    true
}

impl AuthoredDungeon {
    /// Check a record, in order: its ID's shape and namespace, that its
    /// corrupted variant belongs to another faction than its owner, that it
    /// has spaces, and then each space in turn. A space whose two selections
    /// are the same would make an owner change invisible, and is refused.
    #[verifier::rlimit(40)]
    pub fn validate(&self) -> (r: Result<(), AuthoredDungeonError>)
        ensures
            r is Ok <==> dungeon_valid(*self),
            !is_stable_id(self.id@) ==> (r matches Err(AuthoredDungeonError::MalformedId { field, value }) && field == "dungeon.id" && value@
                == self.id@),
            is_stable_id(self.id@) && !seq_starts_with(self.id@, DUNGEON_ID_PREFIX@) ==> (r matches Err(
                AuthoredDungeonError::WrongIdPrefix { found, expected },
            ) && found@ == self.id@ && expected == DUNGEON_ID_PREFIX),
            is_stable_id(self.id@) && seq_starts_with(self.id@, DUNGEON_ID_PREFIX@) && self.default_owner_concept_key
                == self.corrupted_variant_concept_key ==> (r matches Err(AuthoredDungeonError::OwnerAndVariantAreTheSame { concept_key })
                && concept_key == self.default_owner_concept_key),
            is_stable_id(self.id@) && seq_starts_with(self.id@, DUNGEON_ID_PREFIX@) && self.default_owner_concept_key
                != self.corrupted_variant_concept_key && self.spaces@.len() == 0 ==> (r matches Err(AuthoredDungeonError::NoSpaces { id })
                && id@ == self.id@),
            is_stable_id(self.id@) && seq_starts_with(self.id@, DUNGEON_ID_PREFIX@) && self.default_owner_concept_key
                != self.corrupted_variant_concept_key && self.spaces@.len() > 0 && !dungeon_valid(*self) ==> exists|i: int|
                0 <= i < self.spaces@.len() && (forall|j: int| 0 <= j < i ==> #[trigger] space_ok(*self, j)) && !space_ok(*self, i) && (r matches Err(
                    e,
                ) && space_error(*self, i, e)),
    {
        match require_stable_id("dungeon.id", self.id.as_str()) {
            Err(_) => {
                return Err(AuthoredDungeonError::MalformedId { field: "dungeon.id", value: self.id.clone() });
            },
            Ok(()) => {},
        }
        if !starts_with(self.id.as_str(), DUNGEON_ID_PREFIX) {
            return Err(AuthoredDungeonError::WrongIdPrefix { found: self.id.clone(), expected: DUNGEON_ID_PREFIX });
        }
        if self.default_owner_concept_key == self.corrupted_variant_concept_key {
            return Err(AuthoredDungeonError::OwnerAndVariantAreTheSame { concept_key: self.default_owner_concept_key });
        }
        if self.spaces.len() == 0 {
            return Err(AuthoredDungeonError::NoSpaces { id: self.id.clone() });
        }
        let mut i: usize = 0;
        while i < self.spaces.len()
            invariant
                i <= self.spaces@.len(),
                is_stable_id(self.id@),
                seq_starts_with(self.id@, DUNGEON_ID_PREFIX@),
                self.default_owner_concept_key != self.corrupted_variant_concept_key,
                self.spaces@.len() > 0,
                forall|j: int| 0 <= j < i ==> #[trigger] space_ok(*self, j),
            decreases self.spaces@.len() - i,
        {
            let space = &self.spaces[i];
            let mut expected = self.id.clone();
            push_str(&mut expected, ".space.");
            push_str(&mut expected, space.space.as_str());
            if !str_eq(space.id.as_str(), expected.as_str()) {
                let e = AuthoredDungeonError::SpaceIdDoesNotMatch { found: space.id.clone(), expected };
                proof {
                    assert(!space_ok(*self, i as int));
                    assert(space_error(*self, i as int, e));
                }
                return Err(e);
            }
            let mut j: usize = 0;
            while j < i
                invariant
                    j <= i,
                    i < self.spaces@.len(),
                    *space == self.spaces@[i as int],
                    space.id@ == space_id_of(self.id@, space.space@),
                    is_stable_id(self.id@),
                    seq_starts_with(self.id@, DUNGEON_ID_PREFIX@),
                    self.default_owner_concept_key != self.corrupted_variant_concept_key,
                    self.spaces@.len() > 0,
                    forall|m: int| 0 <= m < i ==> #[trigger] space_ok(*self, m),
                    forall|m: int| 0 <= m < j ==> (#[trigger] self.spaces@[m]).space@ != self.spaces@[i as int].space@,
                decreases i - j,
            {
                if str_eq(self.spaces[j].space.as_str(), space.space.as_str()) {
                    let e = AuthoredDungeonError::DuplicateSpace { space: space.space.clone() };
                    proof {
                        assert(self.spaces@[j as int].space@ == self.spaces@[i as int].space@);
                        assert(!space_ok(*self, i as int));
                        assert(space_error(*self, i as int, e));
                    }
                    return Err(e);
                }
                j = j + 1;
            }
            match check_rules(space, "site_rule_ids", &space.site_rule_ids) {
                Err(e) => {
                    proof {
                        assert(!space_ok(*self, i as int));
                        assert(space_error(*self, i as int, e));
                    }
                    return Err(e);
                },
                Ok(()) => {},
            }
            match check_rules(space, "corrupted_site_rule_ids", &space.corrupted_site_rule_ids) {
                Err(e) => {
                    proof {
                        assert(!space_ok(*self, i as int));
                        assert(space_error(*self, i as int, e));
                    }
                    return Err(e);
                },
                Ok(()) => {},
            }
            if same_rules(&space.site_rule_ids, &space.corrupted_site_rule_ids) {
                let e = AuthoredDungeonError::VariantIsAPaletteSwap { space: space.space.clone() };
                proof {
                    assert(!space_ok(*self, i as int));
                    assert(space_error(*self, i as int, e));
                }
                return Err(e);
            }
            proof {
                assert(space_ok(*self, i as int));
            }
            i = i + 1;
        }
        Ok(())
    }

    /// The space of this name, if the record has one.
    pub fn space(&self, space: &str) -> (r: Option<&AuthoredSpace>)
        ensures
            match r {
                Some(s) => exists|i: int|
                    0 <= i < self.spaces@.len() && self.spaces@[i] == *s && s.space@ == space@ && forall|j: int|
                        0 <= j < i ==> (#[trigger] self.spaces@[j]).space@ != space@,
                None => forall|i: int| 0 <= i < self.spaces@.len() ==> (#[trigger] self.spaces@[i]).space@ != space@,
            },
    {
        let mut i: usize = 0;
        while i < self.spaces.len()
            invariant
                i <= self.spaces@.len(),
                forall|j: int| 0 <= j < i ==> (#[trigger] self.spaces@[j]).space@ != space@,
            decreases self.spaces@.len() - i,
        {
            if str_eq(self.spaces[i].space.as_str(), space) {
                return Some(&self.spaces[i]);
            }
            i = i + 1;
        }
        None
    }
}

/// Whether a context's owner is the dungeon's corrupted variant.
pub open spec fn corrupted_owner(d: AuthoredDungeon, context: DungeonContext) -> bool {
    context.owning_faction_id matches Some(f) && f@ == d.corrupted_variant_concept_key.id()
}

/// Every site rule ID the spaces select, in order, with repeats.
pub open spec fn selections(spaces: Seq<AuthoredSpace>, corrupted: bool) -> Seq<Seq<char>>
    decreases spaces.len(),
{
    if spaces.len() == 0 {
        Seq::empty()
    } else {
        selections(spaces.drop_last(), corrupted) + texts(
            if corrupted {
                spaces.last().corrupted_site_rule_ids@
            } else {
                spaces.last().site_rule_ids@
            },
        )
    }
}

/// A sequence with every repeat after the first dropped.
pub open spec fn first_occurrences(s: Seq<Seq<char>>) -> Seq<Seq<char>>
    decreases s.len(),
{
    if s.len() == 0 {
        Seq::empty()
    } else {
        let rest = first_occurrences(s.drop_last());
        if rest.contains(s.last()) {
            rest
        } else {
            rest.push(s.last())
        }
    }
}

/// The site rules a dungeon brings under a context: the corrupted variant's
/// selections where the owner is the corrupted variant, the default
/// selections under any other owner or none, across every space in order,
/// each rule once.
pub fn select_site_rules(dungeon: &AuthoredDungeon, context: &DungeonContext) -> (r: Vec<String>)
    ensures
        texts(r@) == first_occurrences(selections(dungeon.spaces@, corrupted_owner(*dungeon, *context))),
{
    let variant = dungeon.corrupted_variant_concept_key.faction_id();
    let corrupted = match &context.owning_faction_id {
        Some(f) => str_eq(f.as_str(), variant.as_str()),
        None => false,
    };
    let ghost spaces = dungeon.spaces@;
    let mut selected: Vec<String> = Vec::new();
    let mut i: usize = 0;
    proof {
        assert(texts(selected@) =~= first_occurrences(selections(spaces.take(0), corrupted)));
    }
    while i < dungeon.spaces.len()
        invariant
            i <= spaces.len(),
            spaces == dungeon.spaces@,
            corrupted == corrupted_owner(*dungeon, *context),
            texts(selected@) == first_occurrences(selections(spaces.take(i as int), corrupted)),
        decreases spaces.len() - i,
    {
        let space = &dungeon.spaces[i];
        let rules = if corrupted {
            &space.corrupted_site_rule_ids
        } else {
            &space.site_rule_ids
        };
        let ghost before = selections(spaces.take(i as int), corrupted);
        proof {
            assert(spaces.take(i + 1).drop_last() =~= spaces.take(i as int));
        }
        let mut k: usize = 0;
        proof {
            assert(before + texts(rules@).take(0) =~= before);
        }
        while k < rules.len()
            invariant
                k <= rules@.len(),
                texts(selected@) == first_occurrences(before + texts(rules@).take(k as int)),
            decreases rules@.len() - k,
        {
            let rule_id = &rules[k];
            let mut seen = false;
            let mut m: usize = 0;
            while m < selected.len()
                invariant
                    m <= selected@.len(),
                    seen == exists|x: int| 0 <= x < m && #[trigger] selected@[x]@ == rule_id@,
                decreases selected@.len() - m,
            {
                if str_eq(selected[m].as_str(), rule_id.as_str()) {
                    seen = true;
                }
                m = m + 1;
            }
            proof {
                let prefix = before + texts(rules@).take(k + 1);
                assert(prefix.drop_last() =~= before + texts(rules@).take(k as int));
                assert(prefix.last() == rule_id@);
                if seen {
                    let x = choose|x: int| 0 <= x < selected@.len() && #[trigger] selected@[x]@ == rule_id@;
                    assert(texts(selected@)[x] == rule_id@);
                } else {
                    assert forall|x: int| 0 <= x < texts(selected@).len() implies texts(selected@)[x] != rule_id@ by {
                        assert(selected@[x]@ == texts(selected@)[x]);
                    }
                }
            }
            if !seen {
                selected.push(rule_id.clone());
                proof {
                    assert(texts(selected@) =~= first_occurrences(before + texts(rules@).take(k as int)).push(rule_id@));
                }
            }
            k = k + 1;
        }
        proof {
            assert(texts(rules@).take(rules@.len() as int) =~= texts(rules@));
            assert(selections(spaces.take(i + 1), corrupted) =~= before + texts(rules@));
        }
        i = i + 1;
    }
    proof {
        assert(spaces.take(spaces.len() as int) =~= spaces);
    }
    selected
}

} // verus!
