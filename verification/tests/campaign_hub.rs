use eclipse_heart::campaign_hub::{
    current_support_characters, format_character_roster, format_story_cards, hub_notice_key,
    lookup_character, support_choices,
};
use eclipse_heart::campaigns::CampaignSaveBundle;
use eclipse_heart::data::{
    CampaignDefinition, CampaignEncounterDefinition, CampaignNodeDefinition, CardAlignment, CardSpeed,
    CharacterDefinition, StoryCardDefinition,
};
use eclipse_heart::decks::DeckPreset;

fn character(id: &str, name: &str) -> CharacterDefinition {
    CharacterDefinition {
        id: id.to_owned(),
        name: name.to_owned(),
        base_power: 1,
        transformed_power: 2,
        final_power: 3,
        first_threshold: 1,
        second_threshold: 2,
    }
}

fn characters() -> Vec<CharacterDefinition> {
    vec![character("yuki", "Yuki"), character("hana", "Hana"), character("riri", "Riri")]
}

fn campaign() -> CampaignDefinition {
    CampaignDefinition {
        id: "c".to_owned(),
        name: "C".to_owned(),
        description: String::new(),
        nodes: vec![CampaignNodeDefinition {
            id: "node_1".to_owned(),
            encounter_id: "encounter_1".to_owned(),
            next_node_ids: Vec::new(),
            boss: false,
        }],
        encounters: vec![CampaignEncounterDefinition {
            id: "encounter_1".to_owned(),
            name: "First".to_owned(),
            enemy_loadout_id: "starter_a".to_owned(),
            intro_text: String::new(),
            reward_story_card_ids: Vec::new(),
            boss: false,
        }],
    }
}

#[test]
fn rosters_and_cards_are_named_with_ids_as_fallback() {
    let roster = vec!["hana".to_owned(), "ghost".to_owned(), "yuki".to_owned()];
    assert_eq!(format_character_roster(&roster, &characters()), "Hana, ghost, Yuki");
    assert_eq!(format_character_roster(&[], &characters()), "");
    let cards = vec![StoryCardDefinition {
        id: "quiet".to_owned(),
        name: "Quiet Lunch".to_owned(),
        card_type: "bond".to_owned(),
        speed: CardSpeed::DailyLife,
        alignment: CardAlignment::MagicalGirl,
        playable_in_daily_life: true,
        effects: Vec::new(),
    }];
    assert_eq!(
        format_story_cards(&["quiet".to_owned(), "other".to_owned(), "quiet".to_owned()], &cards),
        "Quiet Lunch, other, Quiet Lunch"
    );
    assert_eq!(lookup_character(&characters(), "riri").map(|c| c.name.as_str()), Some("Riri"));
    assert!(lookup_character(&characters(), "momo").is_none());
}

#[test]
fn supports_of_the_selected_run_and_the_choices_around_them() {
    let mut saves = CampaignSaveBundle::default();
    let defs = characters();
    assert!(current_support_characters(&saves, &defs).is_empty());
    let deck = DeckPreset {
        magical_girl_roster: vec!["yuki".to_owned(), "ghost".to_owned(), "hana".to_owned(), "riri".to_owned()],
        ..DeckPreset::default()
    };
    saves.create_run(&campaign(), &deck, "Run");
    assert!(saves.update_selected_magical_girl_supports(&["riri".to_owned(), "ghost".to_owned()]));
    let names: Vec<&str> = current_support_characters(&saves, &defs).iter().map(|c| c.name.as_str()).collect();
    assert_eq!(names, vec!["Riri"]);

    let run = saves.selected_run().expect("run");
    let choices = support_choices(run, &defs);
    let summary: Vec<(usize, &str, bool)> =
        choices.iter().map(|c| (c.slot, c.character_id.as_str(), c.selected)).collect();
    assert_eq!(summary, vec![(1, "hana", false), (2, "riri", true)]);
}

#[test]
fn hub_notices_name_what_is_missing() {
    let mut saves = CampaignSaveBundle::default();
    let mut campaign = campaign();
    assert_eq!(hub_notice_key(&saves, &campaign), Some("campaign_no_active_run"));
    saves.create_run(&campaign, &DeckPreset::default(), "Run");
    assert_eq!(hub_notice_key(&saves, &campaign), None);
    campaign.encounters.clear();
    assert_eq!(hub_notice_key(&saves, &campaign), Some("campaign_missing_encounter"));
    campaign.nodes[0].id = "elsewhere".to_owned();
    assert_eq!(hub_notice_key(&saves, &campaign), Some("campaign_missing_node"));
}
