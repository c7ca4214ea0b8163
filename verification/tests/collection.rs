use eclipse_heart::collection::{inventory_from_ids, CollectionCardKind, CollectionSave};

#[test]
fn ensure_full_roster_owned_sets_minimum_three_copies_without_overfilling() {
    let mut collection = CollectionSave::default();
    collection.add_owned(CollectionCardKind::MagicalGirl, "yuki", 1);
    collection.add_owned(CollectionCardKind::Baddie, "noctra", 5);

    collection.ensure_full_roster_owned(
        &["yuki".to_owned(), "hana".to_owned()],
        &["noctra".to_owned(), "glass_crow".to_owned()],
    );

    assert_eq!(
        collection.owned_count(CollectionCardKind::MagicalGirl, "yuki"),
        3
    );
    assert_eq!(
        collection.owned_count(CollectionCardKind::MagicalGirl, "hana"),
        3
    );
    assert_eq!(
        collection.owned_count(CollectionCardKind::Baddie, "noctra"),
        5
    );
    assert_eq!(
        collection.owned_count(CollectionCardKind::Baddie, "glass_crow"),
        3
    );
}

#[test]
fn default_collection_is_empty_at_version_two() {
    let collection = CollectionSave::default();
    assert_eq!(collection.version, 2);
    assert_eq!(collection.owned_count(CollectionCardKind::StoryCard, "anything"), 0);
}

#[test]
fn add_owned_accumulates_per_kind() {
    let mut collection = CollectionSave::default();
    collection.add_owned(CollectionCardKind::StoryCard, "shared_umbrella", 2);
    collection.add_owned(CollectionCardKind::StoryCard, "shared_umbrella", 3);
    collection.add_owned(CollectionCardKind::MagicalGirl, "shared_umbrella", 1);
    assert_eq!(collection.owned_count(CollectionCardKind::StoryCard, "shared_umbrella"), 5);
    assert_eq!(collection.owned_count(CollectionCardKind::MagicalGirl, "shared_umbrella"), 1);
    assert_eq!(collection.owned_count(CollectionCardKind::Baddie, "shared_umbrella"), 0);
}

#[test]
fn ensure_min_owned_raises_but_never_lowers() {
    let mut collection = CollectionSave::default();
    collection.add_owned(CollectionCardKind::StoryCard, "a", 4);
    collection.ensure_min_owned(CollectionCardKind::StoryCard, "a", 2);
    collection.ensure_min_owned(CollectionCardKind::StoryCard, "b", 2);
    assert_eq!(collection.owned_count(CollectionCardKind::StoryCard, "a"), 4);
    assert_eq!(collection.owned_count(CollectionCardKind::StoryCard, "b"), 2);
}

#[test]
fn available_story_cards_subtract_those_in_the_deck() {
    let mut collection = CollectionSave::default();
    collection.add_owned(CollectionCardKind::StoryCard, "a", 3);
    assert_eq!(collection.story_cards_available_for_deck("a", 1), 2);
    assert_eq!(collection.story_cards_available_for_deck("a", 3), 0);
    assert_eq!(collection.story_cards_available_for_deck("a", 5), 0);
    assert_eq!(collection.story_cards_available_for_deck("b", 0), 0);
}

#[test]
fn legacy_id_lists_count_repeats() {
    let inventory = inventory_from_ids(&vec!["a".to_owned(), "b".to_owned(), "a".to_owned()]);
    let count = |id: &str| {
        inventory
            .iter()
            .find(|(entry, _)| entry == id)
            .map(|(_, n)| *n)
            .unwrap_or(0)
    };
    assert_eq!(count("a"), 2);
    assert_eq!(count("b"), 1);
    assert_eq!(count("c"), 0);
}

#[test]
fn adding_zero_copies_changes_nothing() {
    let mut collection = CollectionSave::default();
    collection.add_owned(CollectionCardKind::StoryCard, "a", 0);
    assert!(collection.owned_story_cards.is_empty());
}

#[test]
fn inventories_keep_one_entry_per_id() {
    let mut collection = CollectionSave::default();
    collection.add_owned(CollectionCardKind::StoryCard, "a", 1);
    collection.add_owned(CollectionCardKind::StoryCard, "a", 2);
    collection.ensure_min_owned(CollectionCardKind::StoryCard, "a", 5);
    collection.ensure_min_owned(CollectionCardKind::StoryCard, "b", 1);
    assert_eq!(collection.owned_story_cards, vec![("a".to_owned(), 5), ("b".to_owned(), 1)]);
}
