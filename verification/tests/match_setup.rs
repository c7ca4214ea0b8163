use eclipse_heart::data::{
    CardAlignment, CardSpeed, CharacterDefinition, GameContent, MatchRules, StarterLoadout,
    StoryCardDefinition,
};
use eclipse_heart::decks::DeckPreset;
use eclipse_heart::match_setup::{support_pair_index_for_ids, support_pairs, MatchSetup};
use eclipse_heart::match_state::{CharacterStage, MatchPhase, MatchState, PlayerId};

fn character(id: &str, name: &str) -> CharacterDefinition {
    CharacterDefinition {
        id: id.to_owned(),
        name: name.to_owned(),
        base_power: 3,
        transformed_power: 5,
        final_power: 8,
        first_threshold: 3,
        second_threshold: 5,
    }
}

fn story(id: &str) -> StoryCardDefinition {
    StoryCardDefinition {
        id: id.to_owned(),
        name: id.to_owned(),
        card_type: "bond".to_owned(),
        speed: CardSpeed::DailyLife,
        alignment: CardAlignment::MagicalGirl,
        playable_in_daily_life: true,
        effects: Vec::new(),
    }
}

fn sample_content() -> GameContent {
    let mut content = GameContent::default();
    content.magical_girls = vec![
        character("yuki", "Yuki"),
        character("hana", "Hana"),
        character("riri", "Riri"),
        character("momo", "Momo"),
        character("kiko", "Kiko"),
    ];
    content.baddies = vec![
        character("noctra", "Noctra"),
        character("glass_crow", "Glass Crow"),
        character("thorn_waltz", "Thorn Waltz"),
        character("velvet_hex", "Velvet Hex"),
        character("hollow_marionette", "Hollow Marionette"),
    ];
    content.story_cards = vec![story("quiet_lunch_on_the_rooftop"), story("crescent_counterpose")];
    content.rules = MatchRules { hand_limit: 7 };
    content
}

fn loadout(id: &str, mg: [&str; 3], baddie: [&str; 3], deck: &[&str]) -> StarterLoadout {
    StarterLoadout {
        id: id.to_owned(),
        name: id.to_owned(),
        description: String::new(),
        playstyle: String::new(),
        magical_girl_main: mg[0].to_owned(),
        magical_girl_supports: vec![mg[1].to_owned(), mg[2].to_owned()],
        prime_baddie: baddie[0].to_owned(),
        baddie_supports: vec![baddie[1].to_owned(), baddie[2].to_owned()],
        support_deck: deck.iter().map(|id| id.to_string()).collect(),
    }
}

#[test]
fn support_pair_lookup_ignores_selection_order() {
    let content = sample_content();
    let definitions = &content.magical_girls;
    assert!(
        definitions.len() >= 3,
        "need a main plus two supports to exercise pair lookup"
    );

    let main_id = definitions[0].id.clone();
    let ascending = vec![definitions[1].id.clone(), definitions[2].id.clone()];
    let descending = vec![definitions[2].id.clone(), definitions[1].id.clone()];

    assert_eq!(
        support_pair_index_for_ids(definitions, &main_id, &ascending),
        support_pair_index_for_ids(definitions, &main_id, &descending),
    );
}

#[test]
fn support_pairs_exclude_the_selected_main() {
    let pairs = support_pairs(5, 1);
    assert!(!pairs.iter().any(|pair| pair.contains(&1)));
    assert_eq!(pairs.len(), 6);
}

#[test]
fn setup_builds_hidden_supports_for_both_players() {
    let content = sample_content();
    let setup = MatchSetup::default_for_content(&content);
    let state = MatchState::from_setup(&content, &setup);

    assert_eq!(state.player_a.magical_girls.main_character_id, "yuki");
    assert_eq!(state.player_b.baddies.main_character_id, "velvet_hex");
    assert_eq!(state.player_a.magical_girls.supports.len(), 2);
    assert!(state.player_a.magical_girls.supports[0].revealed);
    assert!(!state.player_a.magical_girls.supports[1].revealed);
    assert_eq!(state.active_player, PlayerId::PlayerA);
    assert_eq!(state.player_a.hand.len(), 5);
    assert_eq!(state.player_b.hand.len(), 5);
}

#[test]
fn support_pairs_are_listed_in_order() {
    let pairs = support_pairs(4, 0);
    assert_eq!(pairs, vec![vec![1, 2], vec![1, 3], vec![2, 3]]);
    assert_eq!(support_pairs(4, 9), vec![vec![0, 1], vec![0, 2], vec![0, 3], vec![1, 2], vec![1, 3], vec![2, 3]]);
    assert!(support_pairs(2, 0).is_empty());
    assert!(support_pairs(0, 0).is_empty());
}

#[test]
fn default_setup_picks_the_named_characters_and_pairs() {
    let content = sample_content();
    let setup = MatchSetup::default_for_content(&content);
    assert_eq!(setup.player_a_mg_main_index, 0);
    assert_eq!(setup.player_b_mg_main_index, 1);
    assert_eq!(setup.player_a_baddie_main_index, 0);
    assert_eq!(setup.player_b_baddie_main_index, 3);
    assert_eq!(setup.player_a_mg_support_names(&content), vec!["Hana".to_owned(), "Riri".to_owned()]);
    assert_eq!(setup.player_b_mg_support_names(&content), vec!["Momo".to_owned(), "Kiko".to_owned()]);
    assert_eq!(
        setup.player_a_baddie_support_names(&content),
        vec!["Glass Crow".to_owned(), "Thorn Waltz".to_owned()]
    );
    assert_eq!(
        setup.player_b_baddie_support_names(&content),
        vec!["Noctra".to_owned(), "Hollow Marionette".to_owned()]
    );
    assert_eq!(setup.player_a_mg_main_name(&content), "Yuki");
    assert_eq!(setup.player_b_baddie_main_name(&content), "Velvet Hex");
    assert_eq!(setup.player_a_support_deck_id, None);
}

#[test]
fn default_setup_falls_back_on_missing_characters() {
    let mut content = sample_content();
    content.magical_girls = vec![character("a", "A"), character("b", "B"), character("c", "C")];
    let setup = MatchSetup::default_for_content(&content);
    assert_eq!(setup.player_a_mg_main_index, 0);
    assert_eq!(setup.player_a_mg_support_pair_index, 0);
    assert_eq!(setup.player_a_mg_support_names(&content), vec!["B".to_owned(), "C".to_owned()]);
    let empty = GameContent::default();
    let setup = MatchSetup::default_for_content(&empty);
    assert_eq!(setup.player_a_mg_main_name(&empty), "Unknown");
    assert!(setup.player_a_mg_support_names(&empty).is_empty());
}

#[test]
fn cycling_wraps_and_keeps_valid_pairs() {
    let content = sample_content();
    let mut setup = MatchSetup::default_for_content(&content);
    setup.player_a_mg_main_index = 4;
    setup.player_a_mg_support_pair_index = 5;
    setup.cycle_player_a_mg_main(&content);
    assert_eq!(setup.player_a_mg_main_index, 0);
    assert_eq!(setup.player_a_mg_support_pair_index, 5);
    setup.cycle_player_a_mg_supports(&content);
    assert_eq!(setup.player_a_mg_support_pair_index, 0);
    setup.cycle_player_a_mg_supports(&content);
    assert_eq!(setup.player_a_mg_support_pair_index, 1);

    setup.player_b_baddie_support_pair_index = 9;
    setup.cycle_player_b_baddie_main(&content);
    assert_eq!(setup.player_b_baddie_main_index, 4);
    assert_eq!(setup.player_b_baddie_support_pair_index, 0);
    setup.cycle_player_b_baddie_supports(&content);
    assert_eq!(setup.player_b_baddie_support_pair_index, 1);

    setup.player_a_baddie_main_index = usize::MAX;
    setup.cycle_player_a_baddie_main(&content);
    assert_eq!(setup.player_a_baddie_main_index, 1);
    setup.cycle_player_a_baddie_supports(&content);
    setup.cycle_player_b_mg_main(&content);
    setup.cycle_player_b_mg_supports(&content);
    assert_eq!(setup.player_b_mg_main_index, 2);
}

#[test]
fn selection_is_clamped_into_range() {
    let content = sample_content();
    let mut setup = MatchSetup::default_for_content(&content);
    setup.select_main(&content, PlayerId::PlayerB, true, 40);
    assert_eq!(setup.player_b_mg_main_index, 4);
    setup.select_support_pair(&content, PlayerId::PlayerB, true, 40);
    assert_eq!(setup.player_b_mg_support_pair_index, 5);
    setup.select_support_pair(&content, PlayerId::PlayerA, false, 2);
    assert_eq!(setup.player_a_baddie_support_pair_index, 2);
    setup.select_main(&content, PlayerId::PlayerA, false, 1);
    assert_eq!(setup.player_a_baddie_main_index, 1);
    assert_eq!(setup.player_a_baddie_support_pair_index, 2);
    let empty = GameContent::default();
    setup.select_main(&empty, PlayerId::PlayerA, true, 3);
    assert_eq!(setup.player_a_mg_main_index, 0);
    assert_eq!(setup.player_a_mg_support_pair_index, 0);
}

#[test]
fn setup_can_store_assigned_support_deck_ids() {
    let content = sample_content();
    let mut setup = MatchSetup::default_for_content(&content);

    setup.assign_support_deck(PlayerId::PlayerA, Some("deck_7".to_owned()));
    setup.assign_support_deck(PlayerId::PlayerB, Some("deck_9".to_owned()));
    setup.clear_missing_support_deck_assignments(&["deck_9".to_owned()]);

    assert_eq!(setup.player_a_support_deck_id, None);
    assert_eq!(setup.player_b_support_deck_id.as_deref(), Some("deck_9"));
}

#[test]
fn starter_loadouts_name_characters_by_id() {
    let content = sample_content();
    let a = loadout("a", ["hana", "kiko", "riri"], ["velvet_hex", "noctra", "glass_crow"], &["x", "y", "z"]);
    let b = loadout("b", ["momo", "yuki", "hana"], ["noctra", "hollow_marionette", "thorn_waltz"], &[]);
    let setup = MatchSetup::from_starter_loadouts(&content, &a, &b);
    assert_eq!(setup.player_a_mg_main_index, 1);
    assert_eq!(setup.player_a_mg_support_names(&content), vec!["Riri".to_owned(), "Kiko".to_owned()]);
    assert_eq!(setup.player_b_baddie_main_index, 0);
    assert_eq!(
        setup.player_b_baddie_support_names(&content),
        vec!["Thorn Waltz".to_owned(), "Hollow Marionette".to_owned()]
    );

    let state = MatchState::from_starter_loadouts(&content, &a, &b, PlayerId::PlayerB);
    assert_eq!(state.player_a.hand, vec!["x".to_owned(), "y".to_owned(), "z".to_owned()]);
    assert!(state.player_a.deck.is_empty());
    assert!(state.player_b.hand.is_empty());
    assert_eq!(state.active_player, PlayerId::PlayerB);
    assert_eq!(state.priority_player, PlayerId::PlayerB);
    assert_eq!(state.player_b.magical_girls.main_character_id, "momo");
}

#[test]
fn player_deck_setup_uses_chosen_supports_or_the_roster() {
    let content = sample_content();
    let enemy = loadout("e", ["hana", "kiko", "riri"], ["velvet_hex", "noctra", "glass_crow"], &[]);
    let deck = DeckPreset {
        magical_girl_roster: vec!["riri".to_owned(), "yuki".to_owned(), "momo".to_owned()],
        baddie_roster: vec!["thorn_waltz".to_owned(), "velvet_hex".to_owned(), "noctra".to_owned()],
        ..DeckPreset::default()
    };
    let from_roster = MatchSetup::from_player_deck_and_enemy_loadout(&content, &deck, &[], &enemy);
    assert_eq!(from_roster.player_a_mg_main_index, 2);
    assert_eq!(from_roster.player_a_mg_support_names(&content), vec!["Yuki".to_owned(), "Momo".to_owned()]);
    assert_eq!(
        from_roster.player_a_baddie_support_names(&content),
        vec!["Noctra".to_owned(), "Velvet Hex".to_owned()]
    );
    let chosen = MatchSetup::from_player_deck_and_enemy_loadout(
        &content,
        &deck,
        &["kiko".to_owned(), "hana".to_owned()],
        &enemy,
    );
    assert_eq!(chosen.player_a_mg_support_names(&content), vec!["Hana".to_owned(), "Kiko".to_owned()]);
    assert_eq!(chosen.player_b_mg_main_index, 1);
}

#[test]
fn opening_state_starts_round_one_of_daily_life() {
    let content = sample_content();
    let setup = MatchSetup::default_for_content(&content);
    let deck: Vec<String> = (0..7).map(|i| format!("card_{i}")).collect();
    let state = MatchState::from_setup_with_options(&content, &setup, deck.clone(), Vec::new(), PlayerId::PlayerA);
    assert_eq!(state.phase, MatchPhase::DailyLife);
    assert_eq!(state.round, 1);
    assert_eq!(state.player_a.hand, deck[..5].to_vec());
    assert_eq!(state.player_a.deck, deck[5..].to_vec());
    assert!(state.player_b.hand.is_empty());
    assert_eq!(state.story_cards.len(), 2);
    assert_eq!(state.rules.hand_limit, 7);
    assert!(state.winner.is_none());
    assert!(state.event_log.is_empty());
    let main = &state.player_b.magical_girls.main;
    assert_eq!(main.name, "Hana");
    assert_eq!(main.stage, CharacterStage::Base);
    assert_eq!(main.current_power(), 3);
    assert_eq!(state.player_b.magical_girls.total_power(), 6);
}

#[test]
fn default_support_decks_hold_ten_cards() {
    let a = MatchState::default_player_a_support_deck();
    let b = MatchState::default_player_b_support_deck();
    assert_eq!(a.len(), 10);
    assert_eq!(b.len(), 10);
    assert_eq!(a[0], "quiet_lunch_on_the_rooftop");
    assert_eq!(b[9], "break_the_formation");
}

#[test]
fn story_cards_are_keyed_by_id_keeping_the_last() {
    let mut content = sample_content();
    let mut later = story("quiet_lunch_on_the_rooftop");
    later.name = "Quiet Lunch, revised".to_owned();
    content.story_cards.push(later);
    let setup = MatchSetup::default_for_content(&content);
    let state = MatchState::from_setup(&content, &setup);
    let names: Vec<&str> = state.story_cards.iter().map(|c| c.name.as_str()).collect();
    assert_eq!(names, vec!["crescent_counterpose", "Quiet Lunch, revised"]);
}
