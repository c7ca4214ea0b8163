use eclipse_heart::collection::{CollectionCardKind, CollectionSave};
use eclipse_heart::data::{DeckRules, StarterLoadout};
use eclipse_heart::deck_code::ImportedDeck;
use eclipse_heart::decks::{DeckPreset, DecksSave};

fn sample_starter() -> StarterLoadout {
    StarterLoadout {
        id: "starter_alpha".to_owned(),
        name: "Starter Alpha".to_owned(),
        description: "Sample starter".to_owned(),
        playstyle: "Balanced".to_owned(),
        magical_girl_main: "yuki".to_owned(),
        magical_girl_supports: vec!["hana".to_owned(), "riri".to_owned()],
        prime_baddie: "noctra".to_owned(),
        baddie_supports: vec!["glass_crow".to_owned(), "thorn_waltz".to_owned()],
        support_deck: vec!["quiet_lunch_on_the_rooftop".to_owned()],
    }
}

fn magical_girls() -> [String; 5] {
    [
        "yuki".to_owned(),
        "hana".to_owned(),
        "riri".to_owned(),
        "momo".to_owned(),
        "kiko".to_owned(),
    ]
}

fn baddies() -> [String; 5] {
    [
        "noctra".to_owned(),
        "glass_crow".to_owned(),
        "thorn_waltz".to_owned(),
        "velvet_hex".to_owned(),
        "hollow_marionette".to_owned(),
    ]
}

#[test]
fn create_select_duplicate_and_delete_decks_work_independently() {
    let starter = sample_starter();
    let mut decks = DecksSave::default();
    let magical_girls = [
        "yuki".to_owned(),
        "hana".to_owned(),
        "riri".to_owned(),
        "momo".to_owned(),
        "kiko".to_owned(),
    ];
    let baddies = [
        "noctra".to_owned(),
        "glass_crow".to_owned(),
        "thorn_waltz".to_owned(),
        "velvet_hex".to_owned(),
        "hollow_marionette".to_owned(),
    ];

    let starter_deck_id =
        decks.create_deck_from_template(&starter, &magical_girls, &baddies, "Copy");
    assert_eq!(
        decks
            .selected_support_deck()
            .and_then(|deck| deck.source_template_id.as_deref()),
        Some("starter_alpha")
    );

    let custom_deck_id = decks.create_empty_deck("New Deck", &magical_girls, &baddies);
    assert_eq!(
        decks.selected_support_deck().map(|deck| deck.name.as_str()),
        Some("New Deck")
    );

    assert!(decks.select_support_deck(&starter_deck_id));
    let duplicated_id = decks
        .duplicate_selected_deck("Copy")
        .expect("duplicate deck");
    assert_ne!(duplicated_id, starter_deck_id);
    assert_eq!(
        decks
            .selected_support_deck()
            .map(|deck| deck.story_cards.len()),
        Some(1)
    );

    assert!(decks.select_support_deck(&custom_deck_id));
    assert!(decks.rename_selected_deck("Control Build"));
    assert_eq!(
        decks.selected_support_deck().map(|deck| deck.name.as_str()),
        Some("Control Build")
    );

    assert!(decks.delete_selected_deck());
    assert!(decks.selected_support_deck().is_some());
    assert_eq!(decks.support_decks.len(), 2);
}

#[test]
fn deck_save_respects_copy_limit_for_selected_deck() {
    let starter = sample_starter();
    let mut decks = DecksSave::default();
    let rules = DeckRules {
        support_deck_size: 5,
        max_copies_per_story_card: 2,
        universal_copy_limit: true,
    };

    decks.create_deck_from_template(
        &starter,
        &["yuki".to_owned(), "hana".to_owned(), "riri".to_owned()],
        &[
            "noctra".to_owned(),
            "glass_crow".to_owned(),
            "thorn_waltz".to_owned(),
        ],
        "Copy",
    );
    assert_eq!(
        decks.selected_support_deck().map(|deck| deck.name.as_str()),
        Some("Starter Alpha")
    );

    let mut collection = CollectionSave::default();
    collection.add_owned(CollectionCardKind::StoryCard, "not_on_my_watch", 2);

    assert!(decks.add_card("not_on_my_watch", &rules, &collection));
    assert!(decks.add_card("not_on_my_watch", &rules, &collection));
    assert!(!decks.add_card("not_on_my_watch", &rules, &collection));

    assert!(decks.remove_card("not_on_my_watch"));
    assert_eq!(decks.card_count("not_on_my_watch"), 1);
}

#[test]
fn set_roster_slot_swaps_existing_character_into_selected_slot() {
    let starter = sample_starter();
    let mut decks = DecksSave::default();
    let magical_girls = [
        "yuki".to_owned(),
        "hana".to_owned(),
        "riri".to_owned(),
        "momo".to_owned(),
        "kiko".to_owned(),
    ];
    let baddies = [
        "noctra".to_owned(),
        "glass_crow".to_owned(),
        "thorn_waltz".to_owned(),
        "velvet_hex".to_owned(),
        "hollow_marionette".to_owned(),
    ];
    decks.create_deck_from_template(&starter, &magical_girls, &baddies, "Copy");

    assert!(decks.set_roster_slot(true, 0, "hana"));
    assert!(decks.set_roster_slot(true, 0, "riri"));
    assert_eq!(
        decks
            .selected_support_deck()
            .expect("selected deck")
            .magical_girl_roster[0],
        "riri"
    );
    assert_eq!(
        decks
            .selected_support_deck()
            .expect("selected deck")
            .magical_girl_roster[2],
        "hana"
    );
}

#[test]
fn template_deck_takes_the_starter_and_fills_its_roster() {
    let mut decks = DecksSave::default();
    let id = decks.create_deck_from_template(&sample_starter(), &magical_girls(), &baddies(), "Copy");
    assert_eq!(id, "deck_1");
    let deck = decks.selected_support_deck().expect("deck");
    assert_eq!(deck.magical_girl_roster, magical_girls().to_vec());
    assert_eq!(deck.baddie_roster, baddies().to_vec());
    assert_eq!(deck.notes, "Sample starter");
    assert_eq!(deck.archetype_tags, vec!["Balanced".to_owned()]);
    assert_eq!(deck.recent_story_cards, vec!["quiet_lunch_on_the_rooftop".to_owned()]);

    let second = decks.create_deck_from_template(&sample_starter(), &magical_girls(), &baddies(), "Copy");
    assert_eq!(second, "deck_2");
    assert_eq!(decks.selected_support_deck().map(|d| d.name.as_str()), Some("Starter Alpha Copy"));
    assert_eq!(decks.deck_for_template("starter_alpha").map(|d| d.id.as_str()), Some("deck_1"));
    assert!(decks.deck_for_template("other").is_none());
}

#[test]
fn names_stay_unique_ignoring_case() {
    let mut decks = DecksSave::default();
    decks.create_empty_deck("Tempo", &magical_girls(), &baddies());
    decks.create_empty_deck("tempo", &magical_girls(), &baddies());
    decks.create_empty_deck("  ", &magical_girls(), &baddies());
    let names: Vec<&str> = decks.support_decks.iter().map(|d| d.name.as_str()).collect();
    assert_eq!(names, vec!["Tempo", "tempo 2", "Deck"]);

    assert!(decks.select_support_deck("deck_1"));
    assert!(!decks.rename_selected_deck("   "));
    assert!(decks.rename_selected_deck("TEMPO 2"));
    assert_eq!(decks.selected_support_deck().map(|d| d.name.as_str()), Some("TEMPO 2 2"));
    assert!(decks.rename_selected_deck(" Tempo "));
    assert_eq!(decks.selected_support_deck().map(|d| d.name.as_str()), Some("Tempo"));
}

#[test]
fn undo_restores_the_deck_before_the_last_edit() {
    let mut decks = DecksSave::default();
    let rules = DeckRules { support_deck_size: 5, max_copies_per_story_card: 3, universal_copy_limit: true };
    let mut collection = CollectionSave::default();
    collection.add_owned(CollectionCardKind::StoryCard, "a", 3);
    decks.create_empty_deck("Tempo", &magical_girls(), &baddies());
    assert!(!decks.can_undo_selected_deck_change());

    assert!(decks.add_card("a", &rules, &collection));
    let after_first = decks.selected_support_deck().expect("deck").story_cards.clone();
    assert!(decks.add_card("a", &rules, &collection));
    assert!(decks.can_undo_selected_deck_change());
    assert!(decks.undo_selected_deck_change());
    assert_eq!(decks.selected_support_deck().expect("deck").story_cards, after_first);
    assert!(!decks.can_undo_selected_deck_change());
    assert!(!decks.undo_selected_deck_change());
}

#[test]
fn metadata_is_trimmed_and_tags_deduplicated() {
    let mut decks = DecksSave::default();
    assert!(!decks.update_selected_deck_metadata("x", &[]));
    decks.create_empty_deck("Tempo", &magical_girls(), &baddies());
    assert!(decks.update_selected_deck_metadata(
        "  some notes ",
        &[" Aggro ".to_owned(), "aggro".to_owned(), "".to_owned(), "Control".to_owned()],
    ));
    let deck = decks.selected_support_deck().expect("deck");
    assert_eq!(deck.notes, "some notes");
    assert_eq!(deck.archetype_tags, vec!["Aggro".to_owned(), "Control".to_owned()]);
}

#[test]
fn imported_decks_get_fresh_ids_and_the_default_name_when_blank() {
    let mut decks = DecksSave::default();
    let imported = ImportedDeck {
        name: "  ".to_owned(),
        story_cards: vec!["a", "b", "c", "d", "e", "f"].into_iter().map(str::to_owned).collect(),
        magical_girl_roster: magical_girls().to_vec(),
        baddie_roster: baddies().to_vec(),
    };
    let id = decks.import_deck(imported, "Imported Deck");
    assert_eq!(id, "deck_1");
    let deck = decks.selected_support_deck().expect("deck");
    assert_eq!(deck.name, "Imported Deck");
    assert_eq!(deck.recent_story_cards, vec!["a", "b", "c", "d", "e"]);
    assert_eq!(deck.story_cards.len(), 6);
}

#[test]
fn reset_to_template_requires_the_source_starter() {
    let mut decks = DecksSave::default();
    let starter = sample_starter();
    decks.create_deck_from_template(&starter, &magical_girls(), &baddies(), "Copy");
    let rules = DeckRules { support_deck_size: 5, max_copies_per_story_card: 3, universal_copy_limit: true };
    let mut collection = CollectionSave::default();
    collection.add_owned(CollectionCardKind::StoryCard, "a", 3);
    assert!(decks.add_card("a", &rules, &collection));

    let mut other = sample_starter();
    other.id = "starter_beta".to_owned();
    assert!(!decks.reset_selected_deck_to_template(&other));
    assert!(decks.reset_selected_deck_to_template(&starter));
    assert_eq!(
        decks.selected_support_deck().expect("deck").story_cards,
        vec!["quiet_lunch_on_the_rooftop".to_owned()]
    );
}

#[test]
fn recently_modified_decks_are_listed_newest_first() {
    let mut first = DeckPreset::default();
    first.id = "deck_a".to_owned();
    first.updated_at_unix = 5;
    let mut second = DeckPreset::default();
    second.id = "deck_b".to_owned();
    second.updated_at_unix = 9;
    let mut third = DeckPreset::default();
    third.id = "deck_c".to_owned();
    third.updated_at_unix = 5;
    let decks = DecksSave::from_saved(3, vec![third, first, second], None, Vec::new(), 0);
    assert_eq!(decks.recently_modified_deck_ids(2), vec!["deck_b".to_owned(), "deck_a".to_owned()]);
    assert_eq!(decks.recently_modified_deck_ids(9).len(), 3);
}

#[test]
fn selection_falls_back_when_the_selected_deck_is_deleted() {
    let mut decks = DecksSave::default();
    decks.create_empty_deck("One", &magical_girls(), &baddies());
    decks.create_empty_deck("Two", &magical_girls(), &baddies());
    assert!(decks.delete_selected_deck());
    assert_eq!(decks.selected_support_deck().map(|d| d.id.as_str()), Some("deck_1"));
    assert!(decks.delete_selected_deck());
    assert!(decks.selected_support_deck().is_none());
    assert!(!decks.delete_selected_deck());
    assert!(!decks.select_support_deck("deck_1"));
}

#[test]
fn selected_deck_can_be_edited_in_place() {
    let mut decks = DecksSave::default();
    assert!(decks.selected_support_deck_mut().is_none());
    decks.create_empty_deck("One", &magical_girls(), &baddies());
    if let Some(deck) = decks.selected_support_deck_mut() {
        deck.notes = "edited".to_owned();
    }
    assert_eq!(decks.support_decks[0].notes, "edited");
}

#[test]
fn repairing_twice_changes_nothing_more() {
    let mut broken = DeckPreset::default();
    broken.id = "deck_1".to_owned();
    broken.magical_girl_roster = vec!["yuki".to_owned()];
    broken.archetype_tags = vec![" Aggro".to_owned(), "aggro".to_owned()];
    broken.story_cards = (0..7).map(|i| format!("c{i}")).collect();
    let mut decks = DecksSave::from_saved(1, vec![broken], Some("gone".to_owned()), Vec::new(), 0);
    decks.ensure_valid_support_decks(&magical_girls(), &baddies());
    let first = decks.support_decks[0].clone();
    assert_eq!(first.magical_girl_roster, magical_girls().to_vec());
    assert_eq!(first.archetype_tags, vec!["Aggro".to_owned()]);
    assert_eq!(first.recent_story_cards, vec!["c2", "c3", "c4", "c5", "c6"]);
    assert_eq!(decks.selected_support_deck_id.as_deref(), Some("deck_1"));
    assert_eq!(decks.version, 3);

    decks.ensure_valid_support_decks(&magical_girls(), &baddies());
    let second = &decks.support_decks[0];
    assert_eq!(second.magical_girl_roster, first.magical_girl_roster);
    assert_eq!(second.baddie_roster, first.baddie_roster);
    assert_eq!(second.archetype_tags, first.archetype_tags);
    assert_eq!(second.recent_story_cards, first.recent_story_cards);
    assert_eq!(second.created_at_unix, first.created_at_unix);
    assert_eq!(second.updated_at_unix, first.updated_at_unix);
    assert_eq!(decks.selected_support_deck_id.as_deref(), Some("deck_1"));
}

#[test]
fn every_edit_can_be_undone_once() {
    let starter = sample_starter();
    let rules = DeckRules { support_deck_size: 5, max_copies_per_story_card: 3, universal_copy_limit: true };
    let mut collection = CollectionSave::default();
    collection.add_owned(CollectionCardKind::StoryCard, "quiet_lunch_on_the_rooftop", 3);
    let edits: Vec<Box<dyn Fn(&mut DecksSave) -> bool>> = vec![
        Box::new(move |d| d.add_card("quiet_lunch_on_the_rooftop", &rules, &collection)),
        Box::new(|d| d.remove_card("quiet_lunch_on_the_rooftop")),
        Box::new(|d| d.rename_selected_deck("Other")),
        Box::new(|d| d.set_roster_slot(true, 0, "kiko")),
        Box::new(|d| d.update_selected_deck_metadata("note", &["Tag".to_owned()])),
        Box::new(move |d| d.reset_selected_deck_to_template(&starter)),
    ];
    for edit in edits {
        let mut decks = DecksSave::default();
        decks.create_deck_from_template(&sample_starter(), &magical_girls(), &baddies(), "Copy");
        decks.set_roster_slot(false, 4, "velvet_hex");
        assert!(decks.undo_selected_deck_change());
        let before = decks.support_decks[0].clone();
        assert!(edit(&mut decks));
        assert!(decks.undo_selected_deck_change());
        let after = &decks.support_decks[0];
        assert_eq!(after.name, before.name);
        assert_eq!(after.story_cards, before.story_cards);
        assert_eq!(after.magical_girl_roster, before.magical_girl_roster);
        assert_eq!(after.notes, before.notes);
        assert_eq!(after.updated_at_unix, before.updated_at_unix);
        assert!(!decks.can_undo_selected_deck_change());
        assert!(!decks.undo_selected_deck_change());
    }
}
