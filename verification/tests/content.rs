use island_strategy::dungeon::DungeonContext;
use island_strategy::dungeon_content::{
    select_site_rules, AuthoredDungeon, AuthoredDungeonError, AuthoredSpace,
    SITE_RULE_ID_PREFIX, TOMB_OF_RETURNING_NAMES,
};
use island_strategy::faction::ConceptKey;
use island_strategy::keyed::StrSet;
use island_strategy::site_rule::{
    AuthoredSiteRule, AuthoredSiteRuleError, SiteRuleEffect, SiteRules, GRAVE_WATCH,
};

const REGISTRY_ORDER: &str = "site_rule.tomb.registry_order";
const NAMES_RETURN: &str = "site_rule.tomb.names_return";
const DROWNED_BELL: &str = "site_rule.tomb.drowned_bell";

fn a_space(space: &str, rules: &[&str], corrupted: &[&str]) -> AuthoredSpace {
    AuthoredSpace {
        id: format!("{TOMB_OF_RETURNING_NAMES}.space.{space}"),
        space: space.to_owned(),
        display_name: space.to_owned(),
        purpose: "a test space".into(),
        persistent_proof: String::new(),
        world_cell_id: None,
        site_rule_ids: rules.iter().map(|r| (*r).to_owned()).collect(),
        corrupted_site_rule_ids: corrupted.iter().map(|r| (*r).to_owned()).collect(),
        note: String::new(),
    }
}

fn a_tomb() -> AuthoredDungeon {
    AuthoredDungeon {
        id: TOMB_OF_RETURNING_NAMES.into(),
        display_name: "The Tomb of Returning Names".into(),
        default_owner_concept_key: ConceptKey::Elves,
        corrupted_variant_concept_key: ConceptKey::Cthulhu,
        spaces: vec![
            a_space("reception_terrace", &[GRAVE_WATCH], &[DROWNED_BELL]),
            a_space("archive", &[REGISTRY_ORDER, GRAVE_WATCH], &[NAMES_RETURN]),
        ],
    }
}

fn held_by(owner: Option<ConceptKey>) -> DungeonContext {
    DungeonContext {
        owning_faction_id: owner.map(ConceptKey::faction_id),
        grammar_id: TOMB_OF_RETURNING_NAMES.into(),
        ..DungeonContext::default()
    }
}

fn a_rule(id: &str, effect: SiteRuleEffect) -> AuthoredSiteRule {
    AuthoredSiteRule {
        id: id.to_owned(),
        display_name: "A rule".into(),
        effect,
    }
}

#[test]
fn a_sound_tomb_validates_and_finds_its_spaces_by_name() {
    let tomb = a_tomb();
    assert_eq!(tomb.validate(), Ok(()));
    assert_eq!(
        tomb.space("archive").map(|space| space.id.clone()),
        Some(format!("{TOMB_OF_RETURNING_NAMES}.space.archive"))
    );
    assert!(tomb.space("crypt").is_none());
}

#[test]
fn the_same_owner_selects_the_same_rules_each_once_in_space_order() {
    let tomb = a_tomb();
    let first = select_site_rules(&tomb, &held_by(Some(ConceptKey::Elves)));
    let second = select_site_rules(&tomb, &held_by(Some(ConceptKey::Elves)));
    assert_eq!(first, second);
    assert_eq!(first, vec![GRAVE_WATCH.to_owned(), REGISTRY_ORDER.to_owned()]);
}

#[test]
fn the_corrupted_variant_brings_its_own_rules_and_every_other_owner_the_default() {
    let tomb = a_tomb();
    assert_eq!(
        select_site_rules(&tomb, &held_by(Some(ConceptKey::Cthulhu))),
        vec![DROWNED_BELL.to_owned(), NAMES_RETURN.to_owned()]
    );
    let default = vec![GRAVE_WATCH.to_owned(), REGISTRY_ORDER.to_owned()];
    for concept in ConceptKey::ALL {
        if concept == ConceptKey::Cthulhu {
            continue;
        }
        assert_eq!(select_site_rules(&tomb, &held_by(Some(concept))), default);
    }
    assert_eq!(select_site_rules(&tomb, &held_by(None)), default);
}

#[test]
fn a_bad_dungeon_record_is_refused_with_the_first_thing_wrong() {
    let mut palette_swap = a_tomb();
    palette_swap.spaces[0].corrupted_site_rule_ids = palette_swap.spaces[0].site_rule_ids.clone();
    assert_eq!(
        palette_swap.validate(),
        Err(AuthoredDungeonError::VariantIsAPaletteSwap {
            space: "reception_terrace".into()
        })
    );

    let mut same_owner = a_tomb();
    same_owner.corrupted_variant_concept_key = ConceptKey::Elves;
    assert_eq!(
        same_owner.validate(),
        Err(AuthoredDungeonError::OwnerAndVariantAreTheSame {
            concept_key: ConceptKey::Elves
        })
    );

    let mut renamed = a_tomb();
    renamed.spaces[1].space = "crypt_of_coffins".into();
    assert_eq!(
        renamed.validate(),
        Err(AuthoredDungeonError::SpaceIdDoesNotMatch {
            found: format!("{TOMB_OF_RETURNING_NAMES}.space.archive"),
            expected: format!("{TOMB_OF_RETURNING_NAMES}.space.crypt_of_coffins"),
        })
    );

    let mut wrong_prefix = a_tomb();
    wrong_prefix.spaces[0].site_rule_ids = vec!["condition.tomb.grave_watch".into()];
    assert_eq!(
        wrong_prefix.validate(),
        Err(AuthoredDungeonError::WrongIdPrefix {
            found: "condition.tomb.grave_watch".into(),
            expected: SITE_RULE_ID_PREFIX
        })
    );

    let mut malformed_rule = a_tomb();
    malformed_rule.spaces[0].corrupted_site_rule_ids = vec!["Site Rule".into()];
    assert_eq!(
        malformed_rule.validate(),
        Err(AuthoredDungeonError::MalformedId {
            field: "site_rule_id",
            value: "Site Rule".into()
        })
    );

    let mut empty = a_tomb();
    empty.spaces[0].site_rule_ids.clear();
    assert_eq!(
        empty.validate(),
        Err(AuthoredDungeonError::NoSiteRules {
            space: "reception_terrace".into(),
            field: "site_rule_ids"
        })
    );

    let mut no_variant_rules = a_tomb();
    no_variant_rules.spaces[1].corrupted_site_rule_ids.clear();
    assert_eq!(
        no_variant_rules.validate(),
        Err(AuthoredDungeonError::NoSiteRules {
            space: "archive".into(),
            field: "corrupted_site_rule_ids"
        })
    );

    let mut twice = a_tomb();
    twice.spaces.push(a_space("archive", &[GRAVE_WATCH], &[NAMES_RETURN]));
    assert_eq!(
        twice.validate(),
        Err(AuthoredDungeonError::DuplicateSpace {
            space: "archive".into()
        })
    );

    let mut bare = a_tomb();
    bare.spaces.clear();
    assert_eq!(
        bare.validate(),
        Err(AuthoredDungeonError::NoSpaces {
            id: TOMB_OF_RETURNING_NAMES.into()
        })
    );

    let mut misnamed = a_tomb();
    misnamed.id = "tomb.of_returning_names".into();
    assert!(matches!(
        misnamed.validate(),
        Err(AuthoredDungeonError::WrongIdPrefix { .. })
    ));
    misnamed.id = "Tomb".into();
    assert!(matches!(
        misnamed.validate(),
        Err(AuthoredDungeonError::MalformedId { .. })
    ));
}

#[test]
fn grave_watch_is_a_guard_regeneration_the_registry_reads_back() {
    let mut registry = SiteRules::new();
    assert!(registry.is_empty());
    registry
        .insert(a_rule(GRAVE_WATCH, SiteRuleEffect::GuardRegenPerRound(2)))
        .expect("the record loads");
    assert_eq!(
        registry.get(GRAVE_WATCH).map(|rule| rule.effect),
        Some(SiteRuleEffect::GuardRegenPerRound(2))
    );
    assert_eq!(registry.len(), 1);
    assert_eq!(
        registry.insert(a_rule(GRAVE_WATCH, SiteRuleEffect::NeedsDecision(true))),
        Err(AuthoredSiteRuleError::DuplicateSiteRule {
            id: GRAVE_WATCH.into()
        })
    );
    assert_eq!(registry.ids(), vec![GRAVE_WATCH.to_owned()]);
}

#[test]
fn a_site_rule_record_is_refused_for_each_thing_it_leaves_wrong() {
    assert_eq!(
        a_rule("Grave Watch", SiteRuleEffect::GuardRegenPerRound(2)).validate(),
        Err(AuthoredSiteRuleError::MalformedId {
            value: "Grave Watch".into()
        })
    );
    assert_eq!(
        a_rule("rule.tomb.grave_watch", SiteRuleEffect::GuardRegenPerRound(2)).validate(),
        Err(AuthoredSiteRuleError::WrongIdPrefix {
            found: "rule.tomb.grave_watch".into()
        })
    );
    let mut unnamed = a_rule(GRAVE_WATCH, SiteRuleEffect::GuardRegenPerRound(2));
    unnamed.display_name = "   ".into();
    assert_eq!(
        unnamed.validate(),
        Err(AuthoredSiteRuleError::NoDisplayName {
            id: GRAVE_WATCH.into()
        })
    );
    assert_eq!(
        a_rule(GRAVE_WATCH, SiteRuleEffect::GuardRegenPerRound(0)).validate(),
        Err(AuthoredSiteRuleError::GuardRegenNotPositive {
            id: GRAVE_WATCH.into(),
            amount: 0
        })
    );
    assert_eq!(
        a_rule("site_rule.tomb.invented", SiteRuleEffect::NeedsDecision(false)).validate(),
        Err(AuthoredSiteRuleError::NeedsDecisionMustBeTrue {
            id: "site_rule.tomb.invented".into()
        })
    );
    assert_eq!(
        a_rule("site_rule.tomb.invented", SiteRuleEffect::NeedsDecision(true)).validate(),
        Ok(())
    );
}

#[test]
fn suppressed_and_unauthored_rules_are_not_in_force() {
    let mut registry = SiteRules::new();
    registry
        .insert(a_rule(GRAVE_WATCH, SiteRuleEffect::GuardRegenPerRound(2)))
        .unwrap();
    registry
        .insert(a_rule(REGISTRY_ORDER, SiteRuleEffect::NeedsDecision(true)))
        .unwrap();
    let ids = vec![
        GRAVE_WATCH.to_owned(),
        REGISTRY_ORDER.to_owned(),
        "site_rule.tomb.nobody_authored_this".to_owned(),
    ];
    let in_force = registry.in_force(&ids, &StrSet::new());
    assert_eq!(
        in_force.iter().map(|rule| rule.id.as_str()).collect::<Vec<_>>(),
        vec![GRAVE_WATCH, REGISTRY_ORDER]
    );
    assert_eq!(in_force[0].effect, SiteRuleEffect::GuardRegenPerRound(2));
    let mut suppressed = StrSet::new();
    suppressed.insert(GRAVE_WATCH.to_owned());
    let in_force = registry.in_force(&ids, &suppressed);
    assert_eq!(
        in_force.iter().map(|rule| rule.id.as_str()).collect::<Vec<_>>(),
        vec![REGISTRY_ORDER]
    );
}
