//! Deck-builder browser sort, group, and view modes.

use vstd::prelude::*;

use std::cmp::Ordering;

use crate::data::{CardAlignment, CardSpeed, StoryCardDefinition};
use crate::text::{chars_of, owned};

verus! {

/// How the browser orders story cards.
#[derive(Clone, Copy, Debug, PartialEq, Eq, Structural)]
pub enum DeckSortMode {
    Alphabetical,
    Newest,
    OwnedCount,
    CopiesInDeck,
}

/// How the browser groups story cards.
#[derive(Clone, Copy, Debug, PartialEq, Eq, Structural)]
pub enum DeckGroupMode {
    Ungrouped,
    Alignment,
    Speed,
    CardType,
}

/// How the browser lays out story cards.
#[derive(Clone, Copy, Debug, PartialEq, Eq, Structural)]
pub enum DeckViewMode {
    Grid,
    CompactList,
}

/// Per-card numbers the browser sorts by.
#[derive(Clone, Copy, Debug, PartialEq, Eq, Structural)]
pub struct DeckBrowserCardStats {
    pub original_index: usize,
    pub owned_count: u32,
    pub copies_in_deck: usize,
}

impl Default for DeckBrowserCardStats {
    fn default() -> (r: Self)
        ensures
            r.original_index == 0,
            r.owned_count == 0,
            r.copies_in_deck == 0,
    {
        DeckBrowserCardStats { original_index: 0, owned_count: 0, copies_in_deck: 0 }
    }
}

/// The outcome of comparing two values.
#[derive(Clone, Copy, Debug, PartialEq, Eq, Structural)]
pub enum Order {
    Less,
    Equal,
    Greater,
}

/// The std `Ordering` with the same meaning.
pub open spec fn std_ordering(o: Order) -> Ordering {
    match o {
        Order::Less => Ordering::Less,
        Order::Equal => Ordering::Equal,
        Order::Greater => Ordering::Greater,
    }
}

/// The std `Ordering` with the same meaning.
pub fn to_ordering(o: Order) -> (res: Ordering)
    ensures
        res == std_ordering(o),
{
    match o {
        Order::Less => Ordering::Less,
        Order::Equal => Ordering::Equal,
        Order::Greater => Ordering::Greater,
    }
}

/// Lexicographic order of two texts by code point (the order of `String::cmp`).
pub open spec fn text_order(a: Seq<char>, b: Seq<char>) -> Order
    decreases a.len(),
{
    if a.len() == 0 && b.len() == 0 {
        Order::Equal
    } else if a.len() == 0 {
        Order::Less
    } else if b.len() == 0 {
        Order::Greater
    } else if a[0] < b[0] {
        Order::Less
    } else if b[0] < a[0] {
        Order::Greater
    } else {
        text_order(a.drop_first(), b.drop_first())
    }
}

/// The order of two integers.
pub open spec fn int_order(a: int, b: int) -> Order {
    if a < b {
        Order::Less
    } else if a > b {
        Order::Greater
    } else {
        Order::Equal
    }
}

/// `first`, or `second` to break a tie (`Order::then`).
pub open spec fn then_order(first: Order, second: Order) -> Order {
    match first {
        Order::Equal => second,
        _ => first,
    }
}

/// The browser order of two cards under `mode`.
pub open spec fn story_card_order(
    left: StoryCardDefinition,
    left_stats: DeckBrowserCardStats,
    right: StoryCardDefinition,
    right_stats: DeckBrowserCardStats,
    mode: DeckSortMode,
) -> Order {
    match mode {
        DeckSortMode::Alphabetical => then_order(
            text_order(left.name@, right.name@),
            text_order(left.id@, right.id@),
        ),
        DeckSortMode::Newest => then_order(
            int_order(right_stats.original_index as int, left_stats.original_index as int),
            text_order(left.name@, right.name@),
        ),
        DeckSortMode::OwnedCount => then_order(
            int_order(right_stats.owned_count as int, left_stats.owned_count as int),
            text_order(left.name@, right.name@),
        ),
        DeckSortMode::CopiesInDeck => then_order(
            int_order(right_stats.copies_in_deck as int, left_stats.copies_in_deck as int),
            text_order(left.name@, right.name@),
        ),
    }
}

/// Text order is transitive on `Less`.
pub proof fn lemma_text_less_trans(a: Seq<char>, b: Seq<char>, c: Seq<char>)
    requires
        text_order(a, b) == Order::Less,
        text_order(b, c) == Order::Less,
    ensures
        text_order(a, c) == Order::Less,
    decreases a.len(),
{
    if a.len() > 0 && b.len() > 0 && c.len() > 0 && a[0] == b[0] && b[0] == c[0] {
        lemma_text_less_trans(a.drop_first(), b.drop_first(), c.drop_first());
    }
}

/// Text order is asymmetric on `Less`.
pub proof fn lemma_text_less_asym(a: Seq<char>, b: Seq<char>)
    requires
        text_order(a, b) == Order::Less,
    ensures
        text_order(b, a) != Order::Less,
    decreases a.len(),
{
    if a.len() > 0 && b.len() > 0 && a[0] == b[0] {
        lemma_text_less_asym(a.drop_first(), b.drop_first());
    }
}

/// The outcome with the sides swapped.
pub open spec fn reversed(o: Order) -> Order {
    match o {
        Order::Less => Order::Greater,
        Order::Equal => Order::Equal,
        Order::Greater => Order::Less,
    }
}

/// Swapping two texts reverses their order; a text is equal to itself.
proof fn lemma_text_order_swap(a: Seq<char>, b: Seq<char>)
    ensures
        text_order(a, b) == reversed(text_order(b, a)),
        text_order(a, a) == Order::Equal,
    decreases a.len(),
{
    if a.len() > 0 && b.len() > 0 {
        lemma_text_order_swap(a.drop_first(), b.drop_first());
    }
    if a.len() > 0 {
        lemma_text_order_swap(a.drop_first(), a.drop_first());
    }
}

/// The browser order compares: swapping the cards reverses the outcome and
/// a card ties with itself. Under each stat mode the card with the larger
/// stat comes first (newest, most owned, most copies in the deck), and
/// alphabetically the card whose name comes first in text order does.
pub proof fn lemma_browser_order(
    left: StoryCardDefinition,
    left_stats: DeckBrowserCardStats,
    right: StoryCardDefinition,
    right_stats: DeckBrowserCardStats,
    mode: DeckSortMode,
)
    ensures
        story_card_order(left, left_stats, right, right_stats, mode) == reversed(
            story_card_order(right, right_stats, left, left_stats, mode),
        ),
        story_card_order(left, left_stats, left, left_stats, mode) == Order::Equal,
        mode == DeckSortMode::Newest && left_stats.original_index > right_stats.original_index ==> story_card_order(
            left,
            left_stats,
            right,
            right_stats,
            mode,
        ) == Order::Less,
        mode == DeckSortMode::OwnedCount && left_stats.owned_count > right_stats.owned_count ==> story_card_order(
            left,
            left_stats,
            right,
            right_stats,
            mode,
        ) == Order::Less,
        mode == DeckSortMode::CopiesInDeck && left_stats.copies_in_deck > right_stats.copies_in_deck
            ==> story_card_order(left, left_stats, right, right_stats, mode) == Order::Less,
        mode == DeckSortMode::Alphabetical && text_order(left.name@, right.name@) == Order::Less ==> story_card_order(
            left,
            left_stats,
            right,
            right_stats,
            mode,
        ) == Order::Less,
{
    lemma_text_order_swap(left.name@, right.name@);
    lemma_text_order_swap(left.id@, right.id@);
}

/// Lexicographic comparison of two texts.
pub fn compare_text(a: &str, b: &str) -> (res: Order)
    ensures
        res == text_order(a@, b@),
{
    let x = chars_of(a);
    let y = chars_of(b);
    let mut i: usize = 0;
    assert(x@.skip(0) =~= x@);
    assert(y@.skip(0) =~= y@);
    while i < x.len() && i < y.len() && x[i] == y[i]
        invariant
            i <= x.len(),
            i <= y.len(),
            x@ == a@,
            y@ == b@,
            text_order(a@, b@) == text_order(x@.skip(i as int), y@.skip(i as int)),
        decreases x.len() - i,
    {
        proof {
            assert(x@.skip(i as int).drop_first() =~= x@.skip(i + 1));
            assert(y@.skip(i as int).drop_first() =~= y@.skip(i + 1));
        }
        i = i + 1;
    }
    if i == x.len() && i == y.len() {
        Order::Equal
    } else if i == x.len() {
        Order::Less
    } else if i == y.len() {
        Order::Greater
    } else if x[i] < y[i] {
        assert(x@.skip(i as int)[0] == x@[i as int]);
        Order::Less
    } else {
        assert(x@.skip(i as int)[0] == x@[i as int]);
        assert(y@.skip(i as int)[0] == y@[i as int]);
        Order::Greater
    }
}

/// The order of two integers.
fn compare_usize(a: usize, b: usize) -> (res: Order)
    ensures
        res == int_order(a as int, b as int),
{
    if a < b {
        Order::Less
    } else if a > b {
        Order::Greater
    } else {
        Order::Equal
    }
}

/// The order of two counts.
fn compare_u32(a: u32, b: u32) -> (res: Order)
    ensures
        res == int_order(a as int, b as int),
{
    if a < b {
        Order::Less
    } else if a > b {
        Order::Greater
    } else {
        Order::Equal
    }
}

/// `first`, or `second` when `first` is a tie.
fn then(first: Order, second: Order) -> (res: Order)
    ensures
        res == then_order(first, second),
{
    match first {
        Order::Equal => second,
        _ => first,
    }
}

/// Compares two cards for the browser: by name then id, or by a stat in
/// descending order then by name.
pub fn compare_story_cards(
    left: (&StoryCardDefinition, DeckBrowserCardStats),
    right: (&StoryCardDefinition, DeckBrowserCardStats),
    mode: DeckSortMode,
) -> (res: Ordering)
    ensures
        res == std_ordering(story_card_order(*left.0, left.1, *right.0, right.1, mode)),
{
    let o = match mode {
        DeckSortMode::Alphabetical => then(
            compare_text(left.0.name.as_str(), right.0.name.as_str()),
            compare_text(left.0.id.as_str(), right.0.id.as_str()),
        ),
        DeckSortMode::Newest => then(
            compare_usize(right.1.original_index, left.1.original_index),
            compare_text(left.0.name.as_str(), right.0.name.as_str()),
        ),
        DeckSortMode::OwnedCount => then(
            compare_u32(right.1.owned_count, left.1.owned_count),
            compare_text(left.0.name.as_str(), right.0.name.as_str()),
        ),
        DeckSortMode::CopiesInDeck => then(
            compare_usize(right.1.copies_in_deck, left.1.copies_in_deck),
            compare_text(left.0.name.as_str(), right.0.name.as_str()),
        ),
    };
    to_ordering(o)
}

/// The label of the group `card` falls in under `mode`.
pub open spec fn group_label(card: StoryCardDefinition, mode: DeckGroupMode) -> Option<Seq<char>> {
    match mode {
        DeckGroupMode::Ungrouped => None,
        DeckGroupMode::Alignment => Some(
            match card.alignment {
                CardAlignment::MagicalGirl => "Magical Girl"@,
                CardAlignment::Baddie => "Baddie"@,
                CardAlignment::Neutral => "Neutral"@,
            },
        ),
        DeckGroupMode::Speed => Some(
            match card.speed {
                CardSpeed::DailyLife => "Daily"@,
                CardSpeed::Reaction => "Reaction"@,
                CardSpeed::Encounter => "Encounter"@,
            },
        ),
        DeckGroupMode::CardType => Some(card.card_type@),
    }
}

/// The group label of `card` under `mode`; `None` when not grouping.
pub fn card_group_label(card: &StoryCardDefinition, mode: DeckGroupMode) -> (res: Option<String>)
    ensures
        match group_label(*card, mode) {
            Some(l) => res matches Some(s) && s@ == l,
            None => res is None,
        },
{
    match mode {
        DeckGroupMode::Ungrouped => None,
        DeckGroupMode::Alignment => Some(
            match card.alignment {
                CardAlignment::MagicalGirl => owned("Magical Girl"),
                CardAlignment::Baddie => owned("Baddie"),
                CardAlignment::Neutral => owned("Neutral"),
            },
        ),
        DeckGroupMode::Speed => Some(
            match card.speed {
                CardSpeed::DailyLife => owned("Daily"),
                CardSpeed::Reaction => owned("Reaction"),
                CardSpeed::Encounter => owned("Encounter"),
            },
        ),
        DeckGroupMode::CardType => Some(card.card_type.clone()),
    }
}

} // verus!
