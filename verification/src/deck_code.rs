//! Portable deck codes: the `EH1:` framing, the payload that a code carries,
//! and the checks an imported payload must pass against the game content.

use vstd::prelude::*;

use crate::data::{card_has_id, card_position, character_has_id, character_position, CharacterDefinition,
    GameContent};
use crate::decks::DeckPreset;
use crate::seqs::{copy_strings, find_first, find_index, lemma_find_index, lemma_find_index_at,
    lemma_find_index_none, views};
use crate::text::{append_text, chars_of, owned, string_from_range, trim, trim_seq};

verus! {

/// A deck read from a deck code, checked against the game content.
#[derive(Clone, Debug, PartialEq, Eq)]
pub struct ImportedDeck {
    pub name: String,
    pub story_cards: Vec<String>,
    pub magical_girl_roster: Vec<String>,
    pub baddie_roster: Vec<String>,
}

/// Why a deck code was refused.
#[derive(Clone, Debug, PartialEq, Eq)]
pub enum DeckCodeError {
    Empty,
    InvalidFormat,
    UnsupportedVersion(u32),
    InvalidMagicalGirlRosterCount(usize),
    InvalidBaddieRosterCount(usize),
    UnknownStoryCard(String),
    UnknownMagicalGirl(String),
    UnknownBaddie(String),
}

/// The payload of a version-1 deck code.
#[derive(Clone, Debug)]
pub struct DeckCodeV1 {
    pub version: u32,
    pub name: String,
    pub story_cards: Vec<String>,
    pub magical_girl_roster: Vec<String>,
    pub baddie_roster: Vec<String>,
}

/// What importing a payload gives.
pub enum ImportOutcome {
    Imported {
        name: Seq<char>,
        story_cards: Seq<Seq<char>>,
        magical_girl_roster: Seq<Seq<char>>,
        baddie_roster: Seq<Seq<char>>,
    },
    Empty,
    InvalidFormat,
    UnsupportedVersion(u32),
    InvalidMagicalGirlRosterCount(nat),
    InvalidBaddieRosterCount(nat),
    UnknownStoryCard(Seq<char>),
    UnknownMagicalGirl(Seq<char>),
    UnknownBaddie(Seq<char>),
}

/// The outcome a result stands for.
pub open spec fn outcome_of(res: Result<ImportedDeck, DeckCodeError>) -> ImportOutcome {
    match res {
        Ok(d) => ImportOutcome::Imported {
            name: d.name@,
            story_cards: views(d.story_cards@),
            magical_girl_roster: views(d.magical_girl_roster@),
            baddie_roster: views(d.baddie_roster@),
        },
        Err(DeckCodeError::Empty) => ImportOutcome::Empty,
        Err(DeckCodeError::InvalidFormat) => ImportOutcome::InvalidFormat,
        Err(DeckCodeError::UnsupportedVersion(v)) => ImportOutcome::UnsupportedVersion(v),
        Err(DeckCodeError::InvalidMagicalGirlRosterCount(n)) => ImportOutcome::InvalidMagicalGirlRosterCount(n as nat),
        Err(DeckCodeError::InvalidBaddieRosterCount(n)) => ImportOutcome::InvalidBaddieRosterCount(n as nat),
        Err(DeckCodeError::UnknownStoryCard(s)) => ImportOutcome::UnknownStoryCard(s@),
        Err(DeckCodeError::UnknownMagicalGirl(s)) => ImportOutcome::UnknownMagicalGirl(s@),
        Err(DeckCodeError::UnknownBaddie(s)) => ImportOutcome::UnknownBaddie(s@),
    }
}

/// The number of characters in each roster of a deck code.
pub const REQUIRED_ROSTER_SIZE: usize = 5;

/// The content knows no story card with the id.
pub open spec fn unknown_card(content: GameContent) -> spec_fn(Seq<char>) -> bool {
    |id: Seq<char>| find_index(content.story_cards@, card_has_id(id)) is None
}

/// The definitions hold no character with the id.
pub open spec fn unknown_character(defs: Seq<CharacterDefinition>) -> spec_fn(Seq<char>) -> bool {
    |id: Seq<char>| find_index(defs, character_has_id(id)) is None
}

/// What a payload imports as: its version must be 1, both rosters must hold
/// five characters, and every id must be known (the first unknown story
/// card, then magical girl, then baddie is reported); the name is trimmed.
pub open spec fn import_outcome(
    version: u32,
    name: Seq<char>,
    story_cards: Seq<Seq<char>>,
    magical_girl_roster: Seq<Seq<char>>,
    baddie_roster: Seq<Seq<char>>,
    content: GameContent,
) -> ImportOutcome {
    if version != 1 {
        ImportOutcome::UnsupportedVersion(version)
    } else if magical_girl_roster.len() != 5 {
        ImportOutcome::InvalidMagicalGirlRosterCount(magical_girl_roster.len())
    } else if baddie_roster.len() != 5 {
        ImportOutcome::InvalidBaddieRosterCount(baddie_roster.len())
    } else {
        match find_first(story_cards, unknown_card(content)) {
            Some(id) => ImportOutcome::UnknownStoryCard(id),
            None => match find_first(magical_girl_roster, unknown_character(content.magical_girls@)) {
                Some(id) => ImportOutcome::UnknownMagicalGirl(id),
                None => match find_first(baddie_roster, unknown_character(content.baddies@)) {
                    Some(id) => ImportOutcome::UnknownBaddie(id),
                    None => ImportOutcome::Imported {
                        name: trim_seq(name),
                        story_cards: story_cards,
                        magical_girl_roster: magical_girl_roster,
                        baddie_roster: baddie_roster,
                    },
                },
            },
        }
    }
}

/// The text that prefixes a deck code.
pub open spec fn code_prefix() -> Seq<char> {
    "EH1:"@
}

/// The payload text of a code: the trimmed code without its `EH1:` prefix
/// (when present); `None` for a blank code.
pub open spec fn payload_text(code: Seq<char>) -> Option<Seq<char>> {
    let t = trim_seq(code);
    if t.len() == 0 {
        None
    } else if code_prefix().len() <= t.len() && t.take(code_prefix().len() as int) == code_prefix() {
        Some(t.skip(code_prefix().len() as int))
    } else {
        Some(t)
    }
}

/// The payload a deck exports as.
pub fn deck_code_payload(deck: &DeckPreset) -> (res: DeckCodeV1)
    ensures
        res.version == 1,
        res.name@ == deck.name@,
        views(res.story_cards@) == views(deck.story_cards@),
        views(res.magical_girl_roster@) == views(deck.magical_girl_roster@),
        views(res.baddie_roster@) == views(deck.baddie_roster@),
{
    DeckCodeV1 {
        version: 1,
        name: deck.name.clone(),
        story_cards: copy_strings(&deck.story_cards),
        magical_girl_roster: copy_strings(&deck.magical_girl_roster),
        baddie_roster: copy_strings(&deck.baddie_roster),
    }
}

/// A deck code: the `EH1:` prefix followed by the payload text.
pub fn frame_deck_code(payload_json: &str) -> (res: String)
    ensures
        res@ == code_prefix() + payload_json@,
{
    let mut code = owned("EH1:");
    append_text(&mut code, payload_json);
    code
}

/// The payload text of a deck code: the trimmed code without its `EH1:`
/// prefix; `Empty` when the code is blank.
pub fn deck_code_payload_text(code: &str) -> (res: Result<String, DeckCodeError>)
    ensures
        match payload_text(code@) {
            Some(t) => res matches Ok(s) && s@ == t,
            None => res matches Err(DeckCodeError::Empty),
        },
{
    let trimmed = trim(code);
    if trimmed.as_str().is_empty() {
        return Err(DeckCodeError::Empty);
    }
    let chars = chars_of(trimmed.as_str());
    let prefix = chars_of("EH1:");
    let mut matches_prefix = prefix.len() <= chars.len();
    let mut i: usize = 0;
    while matches_prefix && i < prefix.len()
        invariant
            i <= prefix.len(),
            prefix@ == code_prefix(),
            chars@ == trimmed@,
            matches_prefix ==> prefix.len() <= chars.len(),
            matches_prefix ==> forall|k: int| 0 <= k < i ==> chars@[k] == prefix@[k],
            !matches_prefix ==> !(prefix.len() <= chars.len() && chars@.take(prefix.len() as int) == prefix@),
        decreases prefix.len() - i,
    {
        if chars[i] != prefix[i] {
            assert(chars@.take(prefix.len() as int)[i as int] == chars@[i as int]);
            matches_prefix = false;
        }
        i = i + 1;
    }
    if matches_prefix {
        assert(chars@.take(prefix.len() as int) =~= prefix@);
        let rest = string_from_range(&chars, prefix.len(), chars.len());
        assert(chars@.subrange(prefix.len() as int, chars.len() as int) =~= chars@.skip(prefix.len() as int));
        Ok(rest)
    } else {
        Ok(trimmed)
    }
}

/// The first id that `defs` does not define.
fn first_unknown_character(ids: &Vec<String>, defs: &Vec<CharacterDefinition>) -> (res: Option<String>)
    ensures
        match find_first(views(ids@), unknown_character(defs@)) {
            Some(id) => res matches Some(s) && s@ == id,
            None => res is None,
        },
{
    let ghost v = views(ids@);
    let mut i: usize = 0;
    while i < ids.len()
        invariant
            i <= ids.len(),
            v == views(ids@),
            forall|j: int| 0 <= j < i ==> !(#[trigger] unknown_character(defs@)(v[j])),
        decreases ids.len() - i,
    {
        assert(v[i as int] == ids@[i as int]@);
        if character_position(defs, ids[i].as_str()).is_none() {
            proof {
                lemma_find_index_at(v, unknown_character(defs@), i as int);
            }
            return Some(ids[i].clone());
        }
        i = i + 1;
    }
    proof {
        lemma_find_index_none(v, unknown_character(defs@));
    }
    None
}

/// Checks a payload against the content and makes it an imported deck.
pub fn check_deck_code(payload: DeckCodeV1, content: &GameContent) -> (res: Result<ImportedDeck, DeckCodeError>)
    ensures
        outcome_of(res) == import_outcome(
            payload.version,
            payload.name@,
            views(payload.story_cards@),
            views(payload.magical_girl_roster@),
            views(payload.baddie_roster@),
            *content,
        ),
{
    if payload.version != 1 {
        return Err(DeckCodeError::UnsupportedVersion(payload.version));
    }
    if payload.magical_girl_roster.len() != REQUIRED_ROSTER_SIZE {
        return Err(DeckCodeError::InvalidMagicalGirlRosterCount(payload.magical_girl_roster.len()));
    }
    if payload.baddie_roster.len() != REQUIRED_ROSTER_SIZE {
        return Err(DeckCodeError::InvalidBaddieRosterCount(payload.baddie_roster.len()));
    }
    let ghost sv = views(payload.story_cards@);
    let mut i: usize = 0;
    while i < payload.story_cards.len()
        invariant
            i <= payload.story_cards.len(),
            payload.version == 1,
            payload.magical_girl_roster@.len() == 5,
            payload.baddie_roster@.len() == 5,
            sv == views(payload.story_cards@),
            forall|j: int| 0 <= j < i ==> !(#[trigger] unknown_card(*content)(sv[j])),
        decreases payload.story_cards.len() - i,
    {
        assert(sv[i as int] == payload.story_cards@[i as int]@);
        if card_position(&content.story_cards, payload.story_cards[i].as_str()).is_none() {
            proof {
                lemma_find_index_at(sv, unknown_card(*content), i as int);
            }
            return Err(DeckCodeError::UnknownStoryCard(payload.story_cards[i].clone()));
        }
        i = i + 1;
    }
    proof {
        lemma_find_index_none(sv, unknown_card(*content));
    }
    if let Some(id) = first_unknown_character(&payload.magical_girl_roster, &content.magical_girls) {
        return Err(DeckCodeError::UnknownMagicalGirl(id));
    }
    if let Some(id) = first_unknown_character(&payload.baddie_roster, &content.baddies) {
        return Err(DeckCodeError::UnknownBaddie(id));
    }
    Ok(ImportedDeck {
        name: trim(payload.name.as_str()),
        story_cards: payload.story_cards,
        magical_girl_roster: payload.magical_girl_roster,
        baddie_roster: payload.baddie_roster,
    })
}

/// Exporting a deck and importing the payload gives the deck's cards and
/// rosters back, and its name trimmed, when its rosters hold five known
/// characters and every card is known to the content.
pub proof fn lemma_deck_code_round_trip(deck: DeckPreset, content: GameContent)
    requires
        deck.magical_girl_roster@.len() == 5,
        deck.baddie_roster@.len() == 5,
        forall|i: int| 0 <= i < deck.story_cards@.len() ==> !(#[trigger] unknown_card(content)(deck.story_cards@[i]@)),
        forall|i: int|
            0 <= i < deck.magical_girl_roster@.len() ==> !(#[trigger] unknown_character(content.magical_girls@)(
                deck.magical_girl_roster@[i]@,
            )),
        forall|i: int|
            0 <= i < deck.baddie_roster@.len() ==> !(#[trigger] unknown_character(content.baddies@)(
                deck.baddie_roster@[i]@,
            )),
    ensures
        import_outcome(
            1,
            deck.name@,
            views(deck.story_cards@),
            views(deck.magical_girl_roster@),
            views(deck.baddie_roster@),
            content,
        ) == (ImportOutcome::Imported {
            name: trim_seq(deck.name@),
            story_cards: views(deck.story_cards@),
            magical_girl_roster: views(deck.magical_girl_roster@),
            baddie_roster: views(deck.baddie_roster@),
        }),
{
    let s = views(deck.story_cards@);
    let m = views(deck.magical_girl_roster@);
    let b = views(deck.baddie_roster@);
    assert forall|j: int| 0 <= j < s.len() implies !(#[trigger] unknown_card(content)(s[j])) by {
        assert(s[j] == deck.story_cards@[j]@);
    }
    assert forall|j: int| 0 <= j < m.len() implies !(#[trigger] unknown_character(content.magical_girls@)(m[j])) by {
        assert(m[j] == deck.magical_girl_roster@[j]@);
    }
    assert forall|j: int| 0 <= j < b.len() implies !(#[trigger] unknown_character(content.baddies@)(b[j])) by {
        assert(b[j] == deck.baddie_roster@[j]@);
    }
    lemma_find_index_none(s, unknown_card(content));
    lemma_find_index_none(m, unknown_character(content.magical_girls@));
    lemma_find_index_none(b, unknown_character(content.baddies@));
}

} // verus!
