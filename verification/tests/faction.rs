use island_strategy::faction::{
    ConceptKey, FactionDefinition, FactionDefinitions, FactionError, FactionState, Relationship,
    StrategicState,
};

fn a_definition(concept: ConceptKey) -> FactionDefinition {
    FactionDefinition {
        id: concept.faction_id(),
        concept_key: concept,
        ..FactionDefinition::default()
    }
}

#[test]
fn a_record_whose_id_drifted_from_its_concept_is_refused() {
    let mut wrong = a_definition(ConceptKey::Pirates);
    wrong.id = "faction.elves".into();
    assert_eq!(
        wrong.validate(),
        Err(FactionError::IdDoesNotMatchConceptKey {
            found: "faction.elves".into(),
            expected: "faction.pirates".into(),
        })
    );

    let mut unshaped = a_definition(ConceptKey::Pirates);
    unshaped.id = "Pirates".into();
    assert!(matches!(unshaped.validate(), Err(FactionError::MalformedId(_))));

    assert_eq!(a_definition(ConceptKey::Pirates).validate(), Ok(()));
}

#[test]
fn one_concept_gets_one_record() {
    let mut definitions = FactionDefinitions::new();
    definitions
        .insert(a_definition(ConceptKey::Elves))
        .expect("first record loads");
    assert_eq!(
        definitions.insert(a_definition(ConceptKey::Elves)),
        Err(FactionError::DuplicateFaction {
            id: "faction.elves".into()
        })
    );

    definitions
        .insert(a_definition(ConceptKey::Cthulhu))
        .expect("a second concept loads");
    assert_eq!(
        definitions.ids(),
        vec!["faction.cthulhu", "faction.elves"],
        "iteration is ascending by ID, so it is the same on every machine"
    );
    assert_eq!(definitions.len(), 2);
    assert!(definitions
        .by_concept(ConceptKey::Elves)
        .is_some_and(|record| record.id == "faction.elves"));
    assert_eq!(
        definitions.require_known("faction.michael"),
        Err(FactionError::UnknownFaction {
            id: "faction.michael".into()
        })
    );
    assert_eq!(definitions.require_known("faction.elves"), Ok(()));
}

#[test]
fn a_relationship_starts_at_no_history_and_is_read_without_inserting() {
    let state = FactionState::new();
    assert_eq!(state.strategic_state, StrategicState::Contesting);
    assert!(!state.eliminated);
    assert!(
        state.current_goals.is_empty(),
        "a faction wants nothing until its first strategic hour scores the board"
    );
    assert!(state.resources.is_empty());
    assert_eq!(
        state.relationship_toward("faction.pirates"),
        Relationship::default()
    );
    assert!(
        state.relationships.is_empty(),
        "reading a relationship must not create one"
    );
    assert_eq!(Relationship::default().trust, 0);
    assert_eq!(Relationship::default().treaty_state, 0);
}

#[test]
fn the_six_concept_keys_are_the_briefs_and_every_id_is_faction_dot_key() {
    let keys: Vec<&str> = ConceptKey::ALL.iter().map(|c| c.as_key()).collect();
    assert_eq!(
        keys,
        vec![
            "fox_people",
            "colonial_powers",
            "pirates",
            "elves",
            "cthulhu",
            "michael"
        ]
    );
    for concept in ConceptKey::ALL {
        assert_eq!(concept.faction_id(), format!("faction.{}", concept.as_key()));
        assert_eq!(ConceptKey::from_key(concept.as_key()), Some(concept));
    }
    assert_eq!(ConceptKey::from_key("colonial_power"), None);
    assert_eq!(ConceptKey::from_key("FoxPeople"), None);
}

#[test]
fn a_relationship_once_recorded_is_read_back() {
    let mut state = FactionState::new();
    let mut held = Relationship::none();
    held.trust = 12;
    held.fear = -3;
    state.relationships.insert("faction.pirates".to_owned(), held);
    assert_eq!(state.relationship_toward("faction.pirates"), held);
    assert_eq!(state.relationship_toward("faction.elves"), Relationship::none());
    assert_eq!(state.relationships.len(), 1);
}

#[test]
fn a_known_faction_is_found_by_id_and_an_empty_registry_knows_nothing() {
    let mut definitions = FactionDefinitions::new();
    assert!(definitions.is_empty());
    assert!(definitions.get("faction.elves").is_none());
    definitions.insert(a_definition(ConceptKey::Elves)).unwrap();
    assert_eq!(
        definitions.get("faction.elves").map(|d| d.concept_key),
        Some(ConceptKey::Elves)
    );
    assert!(definitions.by_concept(ConceptKey::Pirates).is_none());
}
