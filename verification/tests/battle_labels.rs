use eclipse_heart::battle_labels::{
    battle_action_hint_key, campaign_encounter_name, campaign_winner_label_key, format_supports,
    hand_card_status_key, player_status_key, winner_label_key,
};
use eclipse_heart::data::{
    CampaignDefinition, CampaignEncounterDefinition, CampaignNodeDefinition, CharacterDefinition,
    GameContent,
};
use eclipse_heart::match_setup::MatchSetup;
use eclipse_heart::match_state::{CharacterRuntimeState, MatchPhase, MatchState, PlayerId, SupportState};

fn character(id: &str) -> CharacterDefinition {
    CharacterDefinition {
        id: id.to_owned(),
        name: id.to_owned(),
        base_power: 1,
        transformed_power: 2,
        final_power: 3,
        first_threshold: 1,
        second_threshold: 2,
    }
}

#[test]
fn status_keys_follow_the_phase_and_active_player() {
    let mut content = GameContent::default();
    content.magical_girls = vec![character("a"), character("b"), character("c")];
    content.baddies = vec![character("x"), character("y"), character("z")];
    let setup = MatchSetup::default_for_content(&content);
    let mut state = MatchState::from_setup(&content, &setup);
    assert_eq!(player_status_key(&state, PlayerId::PlayerA), "battle_attacking_label");
    assert_eq!(player_status_key(&state, PlayerId::PlayerB), "battle_defending_label");
    state.phase = MatchPhase::Finished;
    assert_eq!(player_status_key(&state, PlayerId::PlayerB), "battle_finished_label");
}

#[test]
fn result_and_card_keys() {
    assert_eq!(winner_label_key(Some(PlayerId::PlayerA)), "battle_result_player_a");
    assert_eq!(winner_label_key(Some(PlayerId::PlayerB)), "battle_result_player_b");
    assert_eq!(winner_label_key(None), "battle_result_unknown");
    assert_eq!(campaign_winner_label_key(Some(PlayerId::PlayerA)), "campaign_battle_player_wins");
    assert_eq!(campaign_winner_label_key(Some(PlayerId::PlayerB)), "campaign_battle_enemy_wins");
    assert_eq!(campaign_winner_label_key(None), "battle_result_unknown");
    assert_eq!(hand_card_status_key(true), "battle_card_ready");
    assert_eq!(hand_card_status_key(false), "battle_card_hold");
}

#[test]
fn encounter_names_come_from_the_node() {
    let campaign = CampaignDefinition {
        id: "c".to_owned(),
        name: "C".to_owned(),
        description: String::new(),
        nodes: vec![
            CampaignNodeDefinition {
                id: "node_1".to_owned(),
                encounter_id: "encounter_1".to_owned(),
                next_node_ids: Vec::new(),
                boss: false,
            },
            CampaignNodeDefinition {
                id: "node_2".to_owned(),
                encounter_id: "missing".to_owned(),
                next_node_ids: Vec::new(),
                boss: false,
            },
        ],
        encounters: vec![CampaignEncounterDefinition {
            id: "encounter_1".to_owned(),
            name: "First Clash".to_owned(),
            enemy_loadout_id: "starter_a".to_owned(),
            intro_text: String::new(),
            reward_story_card_ids: Vec::new(),
            boss: false,
        }],
    };
    assert_eq!(campaign_encounter_name(&campaign, "node_1"), Some("First Clash".to_owned()));
    assert_eq!(campaign_encounter_name(&campaign, "node_2"), None);
    assert_eq!(campaign_encounter_name(&campaign, "node_3"), None);
}

#[test]
fn action_hints_follow_priority() {
    let a = PlayerId::PlayerA;
    let b = PlayerId::PlayerB;
    assert_eq!(battle_action_hint_key(MatchPhase::Encounter, Some(a), Some(b), a), "battle_hint_reaction");
    assert_eq!(battle_action_hint_key(MatchPhase::DailyLife, None, Some(a), a), "battle_hint_daily_life");
    assert_eq!(battle_action_hint_key(MatchPhase::FinalClimax, None, Some(a), a), "battle_hint_encounter");
    assert_eq!(battle_action_hint_key(MatchPhase::Finished, None, None, a), "battle_hint_finished");
    assert_eq!(battle_action_hint_key(MatchPhase::Encounter, Some(b), Some(b), a), "battle_hint_waiting");
}

#[test]
fn support_lines_hide_unrevealed_supports() {
    let runtime = CharacterRuntimeState::from_definition(&character("Hana"));
    let supports = vec![
        SupportState { runtime: runtime.clone(), revealed: true },
        SupportState { runtime, revealed: false },
    ];
    assert_eq!(format_supports(&supports, "Supports", "Hidden"), "Supports: S1 Hana | S2 Hidden");
    assert_eq!(format_supports(&[], "Supports", "Hidden"), "Supports: ");
}
