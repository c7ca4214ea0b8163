use eclipse_heart::data::{CardAlignment, CardEffect, CardSpeed, StoryCardDefinition};
use eclipse_heart::deck_search::{DeckSearchCardContext, DeckSearchQuery};

fn sample_card() -> StoryCardDefinition {
    StoryCardDefinition {
        id: "quiet_lunch_on_the_rooftop".to_owned(),
        name: "Quiet Lunch on the Rooftop".to_owned(),
        card_type: "bond".to_owned(),
        speed: CardSpeed::DailyLife,
        alignment: CardAlignment::MagicalGirl,
        playable_in_daily_life: true,
        effects: vec![
            CardEffect::GainMainPowerNextEncounter { amount: 1 },
            CardEffect::RevealFirstHiddenOwnSupport,
        ],
    }
}

#[test]
fn free_text_search_matches_name_and_effect_text() {
    let query = DeckSearchQuery::parse("quiet reveal");
    assert!(query.matches(
        &sample_card(),
        DeckSearchCardContext {
            owned_count: 2,
            available_count: 1,
            copies_in_deck: 1,
        }
    ));
}

#[test]
fn tag_search_matches_speed_alignment_and_type() {
    let query = DeckSearchQuery::parse("speed:daily align:mg type:bond");
    assert!(query.matches(&sample_card(), DeckSearchCardContext::default()));
}

#[test]
fn ownership_and_copy_filters_match_softly() {
    let owned_query = DeckSearchQuery::parse("owned copies:2");
    let missing_query = DeckSearchQuery::parse("missing speed:oops");

    assert!(owned_query.matches(
        &sample_card(),
        DeckSearchCardContext {
            owned_count: 3,
            available_count: 1,
            copies_in_deck: 2,
        }
    ));
    assert!(missing_query.matches(
        &sample_card(),
        DeckSearchCardContext {
            owned_count: 1,
            available_count: 0,
            copies_in_deck: 1,
        }
    ));
}

#[test]
fn empty_query_matches_everything() {
    let query = DeckSearchQuery::parse("   ");
    assert!(query.matches(&sample_card(), DeckSearchCardContext::default()));
}

#[test]
fn mismatched_tags_and_terms_reject() {
    let context = DeckSearchCardContext { owned_count: 1, available_count: 1, copies_in_deck: 1 };
    assert!(!DeckSearchQuery::parse("speed:reaction").matches(&sample_card(), context));
    assert!(!DeckSearchQuery::parse("align:baddie").matches(&sample_card(), context));
    assert!(!DeckSearchQuery::parse("type:scheme").matches(&sample_card(), context));
    assert!(!DeckSearchQuery::parse("copies:3").matches(&sample_card(), context));
    assert!(!DeckSearchQuery::parse("missing").matches(&sample_card(), context));
    assert!(!DeckSearchQuery::parse("dread").matches(&sample_card(), context));
    assert!(!DeckSearchQuery::parse("owned").matches(&sample_card(), DeckSearchCardContext::default()));
}

#[test]
fn terms_are_case_insensitive_and_search_the_card_text() {
    let context = DeckSearchCardContext { owned_count: 1, available_count: 0, copies_in_deck: 0 };
    assert!(DeckSearchQuery::parse("ROOFTOP Magical").matches(&sample_card(), context));
    assert!(DeckSearchQuery::parse("daily_life next encounter").matches(&sample_card(), context));
    assert!(DeckSearchQuery::parse("owned missing").matches(&sample_card(), context));
    assert!(DeckSearchQuery::parse("type:BOND speed:DailyLife").matches(&sample_card(), context));
    assert!(DeckSearchQuery::parse("unknown:tag").matches(&sample_card(), context) == false);
}

#[test]
fn joined_words_search_like_each_word() {
    let contexts = [
        DeckSearchCardContext::default(),
        DeckSearchCardContext { owned_count: 2, available_count: 1, copies_in_deck: 2 },
    ];
    let pairs = [("quiet", "reveal"), ("owned", "copies:2"), ("type:BOND", "dread"), ("missing", "rooftop")];
    for context in contexts {
        for (u, v) in pairs {
            let joined = DeckSearchQuery::parse(&format!("{u} {v}")).matches(&sample_card(), context);
            let each = DeckSearchQuery::parse(u).matches(&sample_card(), context)
                && DeckSearchQuery::parse(v).matches(&sample_card(), context);
            assert_eq!(joined, each);
        }
    }
}
