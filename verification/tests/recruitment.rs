use island_strategy::expedition::{ExpeditionError, ExpeditionState};
use island_strategy::recruitment::{
    Disposition, Inclination, MilestoneRule, RecruitmentProjection, RecruitmentStage,
    RecruitmentState,
};

const BETTY: &str = "character.heroine.betty";
const AYLA: &str = "character.heroine.ayla";

fn open_invitation() -> MilestoneRule {
    MilestoneRule {
        advances_to: RecruitmentStage::Committed,
        requires_stage_at_least: RecruitmentStage::Interested,
        requires_at_least: vec![(Inclination::TrustInMichael, Disposition::new(60))],
        ..MilestoneRule::default()
    }
}

fn drawn_to_him() -> RecruitmentState {
    let mut state = RecruitmentState::new(BETTY);
    state.origin_faction_id = Some("faction.free_harbour".into());
    state.recruitment_stage = RecruitmentStage::Interested;
    state.attraction_to_michael = Disposition::new(95);
    state.romantic_interest = Disposition::new(90);
    state.trust_in_michael = Disposition::new(10);
    state
        .milestone_rules
        .insert("milestone.test.open_invitation".into(), open_invitation());
    state
}

fn campaign() -> ExpeditionState {
    let mut state = ExpeditionState::new(
        42,
        vec![
            "character.protagonist.captain".into(),
            BETTY.into(),
            AYLA.into(),
        ],
        "world.cell.black_beach",
    )
    .expect("fixture campaign is legal");
    let mut betty = drawn_to_him();
    betty.trust_in_michael = Disposition::new(75);
    state.recruitment.insert(BETTY.into(), betty);
    state
        .recruitment
        .insert(AYLA.into(), RecruitmentState::new(AYLA));
    state
}

#[test]
fn high_attraction_with_low_trust_does_not_advance_the_stage() {
    let mut state = drawn_to_him();
    let stage = state
        .record_milestone("milestone.test.open_invitation")
        .expect("first recording is accepted");
    assert_eq!(stage, RecruitmentStage::Interested);
    assert_eq!(state.recruitment_stage, RecruitmentStage::Interested);
    assert_eq!(
        state.current_beat_id.as_deref(),
        Some("milestone.test.open_invitation")
    );
}

#[test]
fn the_same_milestone_advances_when_trust_is_there() {
    let mut state = drawn_to_him();
    state.trust_in_michael = Disposition::new(75);
    let stage = state
        .record_milestone("milestone.test.open_invitation")
        .expect("first recording is accepted");
    assert_eq!(stage, RecruitmentStage::Committed);
}

#[test]
fn a_beat_written_for_a_contact_does_not_fire_on_a_stranger() {
    let mut state = drawn_to_him();
    state.trust_in_michael = Disposition::new(75);
    state.recruitment_stage = RecruitmentStage::Aware;
    assert_eq!(
        state.record_milestone("milestone.test.open_invitation"),
        Some(RecruitmentStage::Aware)
    );
}

#[test]
fn an_unruled_milestone_is_recorded_and_moves_nothing() {
    let mut state = drawn_to_him();
    assert_eq!(
        state.record_milestone("milestone.test.shared_a_watch"),
        Some(RecruitmentStage::Interested)
    );
    assert!(state
        .recorded_milestones
        .contains("milestone.test.shared_a_watch"));
}

#[test]
fn a_condition_blocks_until_the_authored_beat_settles_it() {
    let mut state = drawn_to_him();
    state.trust_in_michael = Disposition::new(75);
    state
        .conditions
        .insert("condition.test.sister_is_safe".into());
    let mut rule = open_invitation();
    rule.blocked_by_conditions
        .insert("condition.test.sister_is_safe".into());
    state
        .milestone_rules
        .insert("milestone.test.open_invitation".into(), rule.clone());
    assert_eq!(
        state.record_milestone("milestone.test.open_invitation"),
        Some(RecruitmentStage::Interested)
    );

    rule.clears_conditions
        .insert("condition.test.sister_is_safe".into());
    state
        .milestone_rules
        .insert("milestone.test.the_sister_is_brought_out".into(), rule);
    assert_eq!(
        state.record_milestone("milestone.test.the_sister_is_brought_out"),
        Some(RecruitmentStage::Committed)
    );
    assert!(state.conditions.is_empty());
}

#[test]
fn fear_of_retaliation_holds_her_where_she_is() {
    let mut state = drawn_to_him();
    state.trust_in_michael = Disposition::new(75);
    state.fear_of_retaliation = Disposition::new(90);
    let mut rule = open_invitation();
    rule.requires_at_most
        .push((Inclination::FearOfRetaliation, Disposition::new(40)));
    state
        .milestone_rules
        .insert("milestone.test.open_invitation".into(), rule);
    assert_eq!(
        state.record_milestone("milestone.test.open_invitation"),
        Some(RecruitmentStage::Interested)
    );
}

#[test]
fn a_recorded_milestone_is_refused_without_mutating() {
    let mut state = drawn_to_him();
    state.trust_in_michael = Disposition::new(75);
    assert_eq!(
        state.record_milestone("milestone.test.open_invitation"),
        Some(RecruitmentStage::Committed)
    );
    let before = state.clone();
    assert_eq!(state.record_milestone("milestone.test.open_invitation"), None);
    assert_eq!(state, before);
}

#[test]
fn the_projection_carries_a_stage_word_and_a_beat_and_nothing_else() {
    let mut state = drawn_to_him();
    assert_eq!(
        state.projection(),
        RecruitmentProjection {
            recruitment_stage: "interested",
            current_beat_id: None,
        }
    );
    state.record_milestone("milestone.test.open_invitation");
    let projection = state.projection();
    assert_eq!(projection.recruitment_stage, "interested");
    assert_eq!(
        projection.current_beat_id.as_deref(),
        Some("milestone.test.open_invitation")
    );
}

#[test]
fn a_faction_proper_name_is_not_a_faction_id() {
    let mut state = RecruitmentState::new(BETTY);
    state.origin_faction_id = Some("guild.of.rope_makers".into());
    assert!(matches!(
        state.validate(),
        Err(ExpeditionError::InvalidStableId {
            field: "recruitment.origin_faction_id",
            ..
        })
    ));
    state.origin_faction_id = Some("faction.free_harbour".into());
    assert_eq!(state.validate(), Ok(()));
}

#[test]
fn a_second_recording_is_rejected_without_mutating() {
    let mut state = campaign();
    state
        .record_recruitment_milestone(BETTY, "milestone.test.open_invitation")
        .expect("first recording is accepted");
    let before = state.clone();
    assert_eq!(
        state.record_recruitment_milestone(BETTY, "milestone.test.open_invitation"),
        Err(ExpeditionError::MilestoneAlreadyRecorded {
            character_id: BETTY.into(),
            milestone_id: "milestone.test.open_invitation".into(),
        })
    );
    assert_eq!(state, before);
}

#[test]
fn an_unknown_woman_is_refused_and_never_created() {
    let mut state = campaign();
    let before = state.clone();
    assert_eq!(
        state.record_recruitment_milestone(
            "character.heroine.test",
            "milestone.test.open_invitation"
        ),
        Err(ExpeditionError::UnknownRecruit {
            character_id: "character.heroine.test".into(),
        })
    );
    assert_eq!(state, before);
}

#[test]
fn a_malformed_milestone_id_is_refused_before_anything_moves() {
    let mut state = campaign();
    let before = state.clone();
    assert!(matches!(
        state.record_recruitment_milestone(BETTY, "Milestone Test"),
        Err(ExpeditionError::InvalidStableId {
            field: "milestone_id",
            ..
        })
    ));
    assert_eq!(state, before);
}

#[test]
fn attraction_alone_does_not_move_her_through_the_command() {
    let mut state = campaign();
    let betty = state.recruitment.get_mut(BETTY).expect("fixture recruit");
    betty.trust_in_michael = Disposition::new(10);
    betty.attraction_to_michael = Disposition::new(100);
    betty.romantic_interest = Disposition::new(100);
    assert_eq!(
        state.record_recruitment_milestone(BETTY, "milestone.test.open_invitation"),
        Ok(RecruitmentStage::Interested)
    );
}

#[test]
fn stage_words_are_distinct_and_ordered() {
    let ladder = [
        RecruitmentStage::Unaware,
        RecruitmentStage::Aware,
        RecruitmentStage::Interested,
        RecruitmentStage::Contact,
        RecruitmentStage::Committed,
        RecruitmentStage::Joined,
        RecruitmentStage::Integrated,
    ];
    let words: std::collections::BTreeSet<&str> =
        ladder.iter().map(|stage| stage.as_str()).collect();
    assert_eq!(words.len(), ladder.len());
    for pair in ladder.windows(2) {
        assert!(pair[0].rank() < pair[1].rank());
    }
}

#[test]
fn the_command_records_the_milestone_through_the_campaign() {
    let mut state = campaign();
    assert_eq!(
        state.record_recruitment_milestone(BETTY, "milestone.test.open_invitation"),
        Ok(RecruitmentStage::Committed)
    );
    assert_eq!(
        state.recruitment.get(BETTY).unwrap().projection(),
        RecruitmentProjection {
            recruitment_stage: "committed",
            current_beat_id: Some("milestone.test.open_invitation".into()),
        }
    );
    assert_eq!(
        state.recruitment.get(AYLA).unwrap().recruitment_stage,
        RecruitmentStage::Unaware
    );
}

#[test]
fn a_blocking_condition_that_is_absent_does_not_hold_her_back() {
    let mut state = drawn_to_him();
    state.trust_in_michael = Disposition::new(75);
    let mut rule = open_invitation();
    rule.blocked_by_conditions.insert("condition.test.never_set".into());
    state
        .milestone_rules
        .insert("milestone.test.open_invitation".into(), rule);
    assert_eq!(
        state.record_milestone("milestone.test.open_invitation"),
        Some(RecruitmentStage::Committed)
    );
}
