use eclipse_heart::data::CharacterDefinition;
use eclipse_heart::match_state::{
    discard_player_down_to_hand_limit, opposing, CharacterRuntimeState, CharacterStage, PlayerId,
    ResourceKind, SideState, SupportState,
};

fn definition() -> CharacterDefinition {
    CharacterDefinition {
        id: "yuki".to_owned(),
        name: "Yuki".to_owned(),
        base_power: 3,
        transformed_power: 5,
        final_power: 8,
        first_threshold: 3,
        second_threshold: 4,
    }
}

#[test]
fn discard_helper_moves_only_overflow_cards() {
    let mut hand = vec![
        "a".to_string(),
        "b".to_string(),
        "c".to_string(),
        "d".to_string(),
    ];
    let mut discard = Vec::new();

    let discarded = discard_player_down_to_hand_limit(&mut hand, &mut discard, 2);

    assert_eq!(discarded, 2);
    assert_eq!(hand, vec!["c".to_string(), "d".to_string()]);
    assert_eq!(discard, vec!["a".to_string(), "b".to_string()]);
}

#[test]
fn discard_helper_is_no_op_when_hand_is_within_limit() {
    let mut hand = vec!["a".to_string(), "b".to_string()];
    let mut discard = Vec::new();

    let discarded = discard_player_down_to_hand_limit(&mut hand, &mut discard, 2);

    assert_eq!(discarded, 0);
    assert_eq!(hand, vec!["a".to_string(), "b".to_string()]);
    assert!(discard.is_empty());
}

#[test]
fn discard_helper_appends_to_the_pile() {
    let mut hand = vec!["a".to_string(), "b".to_string(), "c".to_string()];
    let mut discard = vec!["old".to_string()];
    assert_eq!(discard_player_down_to_hand_limit(&mut hand, &mut discard, 0), 3);
    assert!(hand.is_empty());
    assert_eq!(discard, vec!["old", "a", "b", "c"]);
}

#[test]
fn radiance_transforms_then_makes_radiant() {
    let mut character = CharacterRuntimeState::from_definition(&definition());
    assert_eq!(character.current_power(), 3);
    character.gain(ResourceKind::Radiance, 2);
    assert_eq!(character.stage, CharacterStage::Base);
    assert_eq!(character.radiance, 2);
    character.gain(ResourceKind::Radiance, 1);
    assert_eq!(character.stage, CharacterStage::Transformed);
    assert_eq!(character.radiance, 0);
    assert_eq!(character.current_power(), 5);
    character.gain(ResourceKind::Radiance, 4);
    assert_eq!(character.stage, CharacterStage::Radiant);
    assert_eq!(character.current_power(), 8);
    character.gain(ResourceKind::Radiance, 9);
    assert_eq!(character.stage, CharacterStage::Radiant);
    assert_eq!(character.radiance, 9);
}

#[test]
fn dread_awakens_then_becomes_catastrophe_and_never_goes_negative() {
    let mut character = CharacterRuntimeState::from_definition(&definition());
    character.gain(ResourceKind::Dread, -5);
    assert_eq!(character.dread, 0);
    character.gain(ResourceKind::Dread, 3);
    assert_eq!(character.stage, CharacterStage::Awakened);
    character.gain(ResourceKind::Radiance, 10);
    assert_eq!(character.stage, CharacterStage::Awakened);
    assert_eq!(character.radiance, 10);
    character.gain(ResourceKind::Dread, 4);
    assert_eq!(character.stage, CharacterStage::Catastrophe);
    assert_eq!(character.dread, 0);
}

#[test]
fn dread_wins_when_both_thresholds_are_reached() {
    let mut character = CharacterRuntimeState::from_definition(&definition());
    character.radiance = 3;
    character.gain(ResourceKind::Dread, 3);
    assert_eq!(character.stage, CharacterStage::Awakened);
    assert_eq!(character.radiance, 0);
    assert_eq!(character.dread, 0);
}

#[test]
fn power_counts_bonuses_and_exhaustion() {
    let mut character = CharacterRuntimeState::from_definition(&definition());
    character.temporary_power_bonus = 2;
    character.failed_final_climax_power_bonus = 1;
    character.next_encounter_power_bonus = 7;
    assert_eq!(character.current_power(), 6);
    character.exhausted_until_next_encounter = true;
    assert_eq!(character.current_power(), 0);
}

#[test]
fn side_power_adds_revealed_rested_supports() {
    let main = CharacterRuntimeState::from_definition(&definition());
    let mut rested = SupportState { runtime: main.clone(), revealed: true };
    rested.gain(ResourceKind::Radiance, 3);
    let hidden = SupportState { runtime: main.clone(), revealed: false };
    let mut tired = SupportState { runtime: main.clone(), revealed: true };
    tired.runtime.exhausted_until_next_encounter = true;
    let side = SideState {
        main_character_id: "yuki".to_owned(),
        main,
        supports: vec![rested, hidden, tired],
    };
    assert_eq!(side.total_power(), 3 + 5);
}

#[test]
fn opposing_swaps_players() {
    assert_eq!(opposing(PlayerId::PlayerA), PlayerId::PlayerB);
    assert_eq!(opposing(PlayerId::PlayerB), PlayerId::PlayerA);
}

#[test]
fn exhausted_characters_add_nothing_however_large_their_bonuses() {
    let mut main = CharacterRuntimeState::from_definition(&definition());
    main.temporary_power_bonus = i32::MAX;
    main.exhausted_until_next_encounter = true;
    assert_eq!(main.current_power(), 0);
    let mut hidden = SupportState { runtime: main.clone(), revealed: false };
    hidden.runtime.exhausted_until_next_encounter = false;
    let side = SideState { main_character_id: "yuki".to_owned(), main, supports: vec![hidden] };
    assert_eq!(side.total_power(), 0);
}
