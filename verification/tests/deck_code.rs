use eclipse_heart::data::{
    CardAlignment, CardSpeed, CharacterDefinition, GameContent, StoryCardDefinition,
};
use eclipse_heart::deck_code::{
    check_deck_code, deck_code_payload, deck_code_payload_text, frame_deck_code, DeckCodeError,
    DeckCodeV1, ImportedDeck,
};
use eclipse_heart::decks::DeckPreset;

fn character(id: &str) -> CharacterDefinition {
    CharacterDefinition {
        id: id.to_owned(),
        name: id.to_uppercase(),
        base_power: 3,
        transformed_power: 5,
        final_power: 8,
        first_threshold: 3,
        second_threshold: 5,
    }
}

fn story(id: &str) -> StoryCardDefinition {
    StoryCardDefinition {
        id: id.to_owned(),
        name: id.to_owned(),
        card_type: "bond".to_owned(),
        speed: CardSpeed::DailyLife,
        alignment: CardAlignment::MagicalGirl,
        playable_in_daily_life: true,
        effects: Vec::new(),
    }
}

fn sample_content() -> GameContent {
    let mut content = GameContent::default();
    content.magical_girls = ["yuki", "hana", "riri", "momo", "kiko"].iter().map(|id| character(id)).collect();
    content.baddies = ["noctra", "glass_crow", "thorn_waltz", "velvet_hex", "hollow_marionette"]
        .iter()
        .map(|id| character(id))
        .collect();
    content.story_cards = ["quiet_lunch_on_the_rooftop", "crescent_counterpose"].iter().map(|id| story(id)).collect();
    content
}

fn sample_deck() -> DeckPreset {
    DeckPreset {
        id: "deck_1".to_owned(),
        name: "Moonlit Recipe".to_owned(),
        source_template_id: None,
        notes: "notes".to_owned(),
        archetype_tags: vec!["Tempo".to_owned()],
        story_cards: vec![
            "quiet_lunch_on_the_rooftop".to_owned(),
            "quiet_lunch_on_the_rooftop".to_owned(),
            "crescent_counterpose".to_owned(),
        ],
        magical_girl_roster: vec![
            "yuki".to_owned(),
            "hana".to_owned(),
            "riri".to_owned(),
            "momo".to_owned(),
            "kiko".to_owned(),
        ],
        baddie_roster: vec![
            "noctra".to_owned(),
            "glass_crow".to_owned(),
            "thorn_waltz".to_owned(),
            "velvet_hex".to_owned(),
            "hollow_marionette".to_owned(),
        ],
        created_at_unix: 1,
        updated_at_unix: 1,
        recent_story_cards: vec!["crescent_counterpose".to_owned()],
    }
}

fn payload_json(payload: &DeckCodeV1) -> String {
    let mut map = serde_json::Map::new();
    map.insert("version".to_owned(), serde_json::Value::from(payload.version));
    map.insert("name".to_owned(), serde_json::Value::from(payload.name.clone()));
    map.insert("story_cards".to_owned(), serde_json::Value::from(payload.story_cards.clone()));
    map.insert(
        "magical_girl_roster".to_owned(),
        serde_json::Value::from(payload.magical_girl_roster.clone()),
    );
    map.insert("baddie_roster".to_owned(), serde_json::Value::from(payload.baddie_roster.clone()));
    serde_json::Value::Object(map).to_string()
}

fn texts(value: &serde_json::Value, key: &str) -> Option<Vec<String>> {
    value
        .get(key)?
        .as_array()?
        .iter()
        .map(|entry| entry.as_str().map(str::to_owned))
        .collect()
}

fn parse_payload(text: &str) -> Result<DeckCodeV1, DeckCodeError> {
    let value: serde_json::Value = serde_json::from_str(text).map_err(|_| DeckCodeError::InvalidFormat)?;
    let payload = (|| {
        Some(DeckCodeV1 {
            version: u32::try_from(value.get("version")?.as_u64()?).ok()?,
            name: value.get("name")?.as_str()?.to_owned(),
            story_cards: texts(&value, "story_cards")?,
            magical_girl_roster: texts(&value, "magical_girl_roster")?,
            baddie_roster: texts(&value, "baddie_roster")?,
        })
    })();
    payload.ok_or(DeckCodeError::InvalidFormat)
}

fn export(deck: &DeckPreset) -> String {
    frame_deck_code(&payload_json(&deck_code_payload(deck)))
}

fn import(code: &str, content: &GameContent) -> Result<ImportedDeck, DeckCodeError> {
    let text = deck_code_payload_text(code)?;
    check_deck_code(parse_payload(&text)?, content)
}

#[test]
fn deck_code_round_trip_preserves_contents() {
    let content = sample_content();
    let deck = sample_deck();

    let code = export(&deck);
    let imported = import(&code, &content).expect("deck imports");

    assert_eq!(
        imported,
        ImportedDeck {
            name: deck.name,
            story_cards: deck.story_cards,
            magical_girl_roster: deck.magical_girl_roster,
            baddie_roster: deck.baddie_roster,
        }
    );
}

#[test]
fn import_rejects_unknown_card_ids() {
    let content = sample_content();

    let code = r#"EH1:{"version":1,"name":"Broken","story_cards":["unknown_card"],"magical_girl_roster":["yuki","hana","riri","momo","kiko"],"baddie_roster":["noctra","glass_crow","thorn_waltz","velvet_hex","hollow_marionette"]}"#;

    assert_eq!(
        import(code, &content),
        Err(DeckCodeError::UnknownStoryCard("unknown_card".to_owned()))
    );
}

#[test]
fn import_rejects_wrong_roster_size() {
    let content = sample_content();

    let code = r#"EH1:{"version":1,"name":"Broken","story_cards":["quiet_lunch_on_the_rooftop"],"magical_girl_roster":["yuki"],"baddie_roster":["noctra","glass_crow","thorn_waltz","velvet_hex","hollow_marionette"]}"#;

    assert_eq!(
        import(code, &content),
        Err(DeckCodeError::InvalidMagicalGirlRosterCount(1))
    );
}

#[test]
fn codes_are_prefixed_and_the_prefix_is_optional_on_import() {
    let deck = sample_deck();
    let code = export(&deck);
    assert!(code.starts_with("EH1:{"));
    let text = deck_code_payload_text(&format!("  {}  ", code)).expect("payload");
    assert_eq!(format!("EH1:{}", text), code);
    assert_eq!(deck_code_payload_text("{\"a\":1}"), Ok("{\"a\":1}".to_owned()));
    assert_eq!(deck_code_payload_text(" \t\n "), Err(DeckCodeError::Empty));
    assert_eq!(frame_deck_code("x"), "EH1:x");
}

#[test]
fn each_refusal_has_its_error() {
    let content = sample_content();
    let good = deck_code_payload(&sample_deck());
    let with = |change: &dyn Fn(&mut DeckCodeV1)| {
        let mut payload = deck_code_payload(&sample_deck());
        change(&mut payload);
        check_deck_code(payload, &content)
    };

    assert!(check_deck_code(good, &content).is_ok());
    assert_eq!(with(&|p| p.version = 2), Err(DeckCodeError::UnsupportedVersion(2)));
    assert_eq!(
        with(&|p| {
            p.baddie_roster.pop();
        }),
        Err(DeckCodeError::InvalidBaddieRosterCount(4))
    );
    assert_eq!(
        with(&|p| p.magical_girl_roster[2] = "nobody".to_owned()),
        Err(DeckCodeError::UnknownMagicalGirl("nobody".to_owned()))
    );
    assert_eq!(
        with(&|p| p.baddie_roster[4] = "nobody".to_owned()),
        Err(DeckCodeError::UnknownBaddie("nobody".to_owned()))
    );
    assert_eq!(
        with(&|p| p.name = "  Spaced  ".to_owned()).map(|deck| deck.name),
        Ok("Spaced".to_owned())
    );
    assert_eq!(import("EH1:not json", &content), Err(DeckCodeError::InvalidFormat));
}
