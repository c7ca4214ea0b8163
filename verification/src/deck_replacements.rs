//! Ownership-aware replacement suggestions for incomplete decks.

use vstd::prelude::*;

use crate::collection::{CollectionCardKind, CollectionSave};
use crate::data::{card_has_id, card_position, GameContent, StoryCardDefinition};
use crate::deck_browser::{compare_text, lemma_text_less_asym, lemma_text_less_trans, text_order, Order};
use crate::deck_validation::{count_views, missing_amounts, sorted_keys, DeckValidation};
use crate::decks::DeckPreset;
use crate::seqs::{count_of, count_text, contains_text_entry, find_first, find_index, lemma_find_index_at,
    lemma_find_index_none, lemma_stable_sort_members, lemma_stable_sort_sorted, preceded_by, stable_insert, stable_sort, views};
use crate::text::{eq_ignore_ascii_case, eq_ignore_case, text_eq};

verus! {

/// Owned cards that could stand in for a card the collection lacks.
#[derive(Clone, Debug, PartialEq, Eq)]
pub struct DeckReplacementSuggestion {
    pub missing_card_id: String,
    pub replacement_card_ids: Vec<String>,
}

/// A candidate: its score, name and id.
pub type Ranked = (u8, Seq<char>, Seq<char>);

/// `x` ranks strictly before `y`: a higher score, or the same score and a
/// smaller name.
pub open spec fn ranks_before(x: Ranked, y: Ranked) -> bool {
    x.0 > y.0 || (x.0 == y.0 && text_order(x.1, y.1) == Order::Less)
}

/// How well `candidate` fits in place of `missing`: 4 for the same
/// alignment, 2 for the same type (ignoring ASCII case), 1 when owned and 1
/// when already in the deck.
pub open spec fn score_of(
    deck: Seq<Seq<char>>,
    collection: CollectionSave,
    missing: StoryCardDefinition,
    candidate: StoryCardDefinition,
) -> u8 {
    ((if candidate.alignment == missing.alignment { 4int } else { 0int }) + (if eq_ignore_case(
        candidate.card_type@,
        missing.card_type@,
    ) {
        2int
    } else {
        0int
    }) + (if collection.count(CollectionCardKind::StoryCard, candidate.id@) > 0 {
        1int
    } else {
        0int
    }) + (if deck.contains(candidate.id@) {
        1int
    } else {
        0int
    })) as u8
}

/// The entry a candidate is ranked by.
pub open spec fn ranked_entry(
    deck: Seq<Seq<char>>,
    collection: CollectionSave,
    missing: StoryCardDefinition,
    candidate: StoryCardDefinition,
) -> Ranked {
    (score_of(deck, collection, missing, candidate), candidate.name@, candidate.id@)
}

/// A matching alignment outweighs everything else: of two candidates that
/// are alike in being owned and in being in the deck, one with the missing
/// card's alignment ranks strictly before one without it, whatever their
/// types and names; so one that matches the alignment but not the type
/// ranks before one that matches the type but not the alignment.
pub proof fn lemma_alignment_ranks_first(
    deck: Seq<Seq<char>>,
    collection: CollectionSave,
    missing: StoryCardDefinition,
    aligned: StoryCardDefinition,
    other: StoryCardDefinition,
)
    requires
        aligned.alignment == missing.alignment,
        other.alignment != missing.alignment,
        (collection.count(CollectionCardKind::StoryCard, aligned.id@) > 0) == (collection.count(
            CollectionCardKind::StoryCard,
            other.id@,
        ) > 0),
        deck.contains(aligned.id@) == deck.contains(other.id@),
    ensures
        score_of(deck, collection, missing, aligned) >= score_of(deck, collection, missing, other) + 2,
        ranks_before(ranked_entry(deck, collection, missing, aligned), ranked_entry(deck, collection, missing, other)),
        !ranks_before(ranked_entry(deck, collection, missing, other), ranked_entry(deck, collection, missing, aligned)),
{
}

/// A matching type (up to ASCII case) comes next: of two candidates alike
/// in alignment, in being owned and in being in the deck, one whose type
/// matches the missing card's ranks strictly before one whose type does not.
pub proof fn lemma_type_ranks_next(
    deck: Seq<Seq<char>>,
    collection: CollectionSave,
    missing: StoryCardDefinition,
    typed: StoryCardDefinition,
    other: StoryCardDefinition,
)
    requires
        (typed.alignment == missing.alignment) == (other.alignment == missing.alignment),
        eq_ignore_case(typed.card_type@, missing.card_type@),
        !eq_ignore_case(other.card_type@, missing.card_type@),
        (collection.count(CollectionCardKind::StoryCard, typed.id@) > 0) == (collection.count(
            CollectionCardKind::StoryCard,
            other.id@,
        ) > 0),
        deck.contains(typed.id@) == deck.contains(other.id@),
    ensures
        score_of(deck, collection, missing, typed) == score_of(deck, collection, missing, other) + 2,
        ranks_before(ranked_entry(deck, collection, missing, typed), ranked_entry(deck, collection, missing, other)),
        !ranks_before(ranked_entry(deck, collection, missing, other), ranked_entry(deck, collection, missing, typed)),
{
}

/// Being owned and being in the deck each add one point: of two candidates
/// alike in alignment and type, and alike in one of these, the one that has
/// the other scores exactly one more.
pub proof fn lemma_owned_and_in_deck_add_one(
    deck: Seq<Seq<char>>,
    collection: CollectionSave,
    missing: StoryCardDefinition,
    c1: StoryCardDefinition,
    c2: StoryCardDefinition,
)
    requires
        (c1.alignment == missing.alignment) == (c2.alignment == missing.alignment),
        eq_ignore_case(c1.card_type@, missing.card_type@) == eq_ignore_case(c2.card_type@, missing.card_type@),
    ensures
        (collection.count(CollectionCardKind::StoryCard, c1.id@) > 0) == (collection.count(
            CollectionCardKind::StoryCard,
            c2.id@,
        ) > 0) && deck.contains(c1.id@) && !deck.contains(c2.id@) ==> score_of(deck, collection, missing, c1)
            == score_of(deck, collection, missing, c2) + 1,
        deck.contains(c1.id@) == deck.contains(c2.id@) && collection.count(CollectionCardKind::StoryCard, c1.id@) > 0
            && collection.count(CollectionCardKind::StoryCard, c2.id@) == 0 ==> score_of(deck, collection, missing, c1)
            == score_of(deck, collection, missing, c2) + 1,
{
}

/// `candidate` may replace `missing`: another card of the same speed that
/// the collection owns more copies of than the deck holds, and that the
/// deck holds fewer copies of than the limit.
pub open spec fn may_replace(
    deck: Seq<Seq<char>>,
    content: GameContent,
    collection: CollectionSave,
    missing: StoryCardDefinition,
    candidate: StoryCardDefinition,
) -> bool {
    &&& candidate.id@ != missing.id@
    &&& collection.count(CollectionCardKind::StoryCard, candidate.id@) > (count_of(deck, candidate.id@) as u32)
    &&& count_of(deck, candidate.id@) < content.deck_rules.max_copies_per_story_card
    &&& candidate.speed == missing.speed
}

/// The candidates for `missing` among `cards`, in content order, ranked.
pub open spec fn candidates(
    cards: Seq<StoryCardDefinition>,
    deck: Seq<Seq<char>>,
    content: GameContent,
    collection: CollectionSave,
    missing: StoryCardDefinition,
) -> Seq<Ranked>
    decreases cards.len(),
{
    if cards.len() == 0 {
        Seq::empty()
    } else {
        let prev = candidates(cards.drop_last(), deck, content, collection, missing);
        let c = cards.last();
        if may_replace(deck, content, collection, missing, c) {
            prev.push((score_of(deck, collection, missing, c), c.name@, c.id@))
        } else {
            prev
        }
    }
}

/// The ids suggested for `missing`: the best `limit` candidates.
pub open spec fn suggested_ids(
    deck: Seq<Seq<char>>,
    content: GameContent,
    collection: CollectionSave,
    missing: StoryCardDefinition,
    limit: int,
) -> Seq<Seq<char>> {
    let ranked = stable_sort(
        candidates(content.story_cards@, deck, content, collection, missing),
        |x: Ranked, y: Ranked| ranks_before(x, y),
    );
    (if ranked.len() > limit {
        ranked.take(limit)
    } else {
        ranked
    }).map_values(|r: Ranked| r.2)
}

/// The suggestions for the missing entries, in order: one per missing card
/// that the content knows and that has at least one candidate.
pub open spec fn suggestions_for(
    missing: Seq<(Seq<char>, nat)>,
    deck: Seq<Seq<char>>,
    content: GameContent,
    collection: CollectionSave,
    limit: int,
) -> Seq<(Seq<char>, Seq<Seq<char>>)>
    decreases missing.len(),
{
    if missing.len() == 0 {
        Seq::empty()
    } else {
        let prev = suggestions_for(missing.drop_last(), deck, content, collection, limit);
        let id = missing.last().0;
        match find_first(content.story_cards@, card_has_id(id)) {
            Some(card) => {
                let ids = suggested_ids(deck, content, collection, card, limit);
                if ids.len() > 0 {
                    prev.push((id, ids))
                } else {
                    prev
                }
            },
            None => prev,
        }
    }
}

/// The content of a list of suggestions.
pub open spec fn suggestion_views(v: Seq<DeckReplacementSuggestion>) -> Seq<(Seq<char>, Seq<Seq<char>>)> {
    v.map_values(|s: DeckReplacementSuggestion| (s.missing_card_id@, views(s.replacement_card_ids@)))
}

/// The ranking order.
pub open spec fn ranking() -> spec_fn(Ranked, Ranked) -> bool {
    |x: Ranked, y: Ranked| ranks_before(x, y)
}

/// The ranking is a transitive, asymmetric order.
proof fn lemma_ranking_order()
    ensures
        forall|x: Ranked, y: Ranked, z: Ranked| #[trigger] ranking()(x, y) && #[trigger] ranking()(y, z) ==> ranking()(x, z),
        forall|x: Ranked, y: Ranked| #[trigger] ranking()(x, y) ==> !ranking()(y, x),
{
    assert forall|x: Ranked, y: Ranked, z: Ranked| #[trigger] ranking()(x, y) && #[trigger] ranking()(y, z) implies ranking()(x, z) by {
        if x.0 == y.0 && y.0 == z.0 {
            lemma_text_less_trans(x.1, y.1, z.1);
        }
    }
    assert forall|x: Ranked, y: Ranked| #[trigger] ranking()(x, y) implies !ranking()(y, x) by {
        if x.0 == y.0 {
            lemma_text_less_asym(x.1, y.1);
        }
    }
}

/// The candidates for `missing`, best first.
pub open spec fn ranked_candidates(
    deck: Seq<Seq<char>>,
    content: GameContent,
    collection: CollectionSave,
    missing: StoryCardDefinition,
) -> Seq<Ranked> {
    stable_sort(candidates(content.story_cards@, deck, content, collection, missing), ranking())
}

/// Best fit first: the suggested ids are those of the first `limit` ranked
/// candidates, and no candidate comes after one it ranks before: scores
/// never rise along the list, and among equal scores names come in text
/// order.
pub proof fn lemma_best_fit_first(
    deck: Seq<Seq<char>>,
    content: GameContent,
    collection: CollectionSave,
    missing: StoryCardDefinition,
    limit: int,
)
    requires
        limit >= 0,
    ensures
        ({
            let ranked = ranked_candidates(deck, content, collection, missing);
            let ids = suggested_ids(deck, content, collection, missing, limit);
            &&& ids.len() == if ranked.len() > limit { limit } else { ranked.len() as int }
            &&& forall|k: int| 0 <= k < ids.len() ==> #[trigger] ids[k] == ranked[k].2
            &&& forall|a: int, b: int| 0 <= a < b < ranked.len() ==> !ranks_before(#[trigger] ranked[b], #[trigger] ranked[a])
            &&& forall|a: int, b: int| 0 <= a < b < ranked.len() ==> (#[trigger] ranked[a]).0 >= (#[trigger] ranked[b]).0
        }),
{
    let ranked = ranked_candidates(deck, content, collection, missing);
    lemma_ranking_order();
    lemma_stable_sort_sorted(candidates(content.story_cards@, deck, content, collection, missing), ranking());
    assert(ranking() == (|x: Ranked, y: Ranked| ranks_before(x, y)));
    assert forall|a: int, b: int| 0 <= a < b < ranked.len() implies !ranks_before(#[trigger] ranked[b], #[trigger] ranked[a]) by {
        assert(!ranking()(ranked[b], ranked[a]));
    }
}

/// In the ranked list, a candidate with the missing card's alignment comes
/// before one without it when they are alike in being owned and in being in
/// the deck.
pub proof fn lemma_aligned_listed_first(
    deck: Seq<Seq<char>>,
    content: GameContent,
    collection: CollectionSave,
    missing: StoryCardDefinition,
    aligned: StoryCardDefinition,
    other: StoryCardDefinition,
    a: int,
    b: int,
)
    requires
        aligned.alignment == missing.alignment,
        other.alignment != missing.alignment,
        (collection.count(CollectionCardKind::StoryCard, aligned.id@) > 0) == (collection.count(
            CollectionCardKind::StoryCard,
            other.id@,
        ) > 0),
        deck.contains(aligned.id@) == deck.contains(other.id@),
        0 <= a < ranked_candidates(deck, content, collection, missing).len(),
        0 <= b < ranked_candidates(deck, content, collection, missing).len(),
        ranked_candidates(deck, content, collection, missing)[a] == ranked_entry(deck, collection, missing, aligned),
        ranked_candidates(deck, content, collection, missing)[b] == ranked_entry(deck, collection, missing, other),
    ensures
        a < b,
{
    let ranked = ranked_candidates(deck, content, collection, missing);
    lemma_alignment_ranks_first(deck, collection, missing, aligned, other);
    lemma_best_fit_first(deck, content, collection, missing, 0);
    if b < a {
        assert(!ranks_before(ranked[a], ranked[b]));
    }
}

/// `r` is the ranked entry of a card of `cards` that may replace `missing`.
pub open spec fn acceptable_entry(
    cards: Seq<StoryCardDefinition>,
    deck: Seq<Seq<char>>,
    content: GameContent,
    collection: CollectionSave,
    missing: StoryCardDefinition,
    r: Ranked,
) -> bool {
    exists|i: int|
        0 <= i < cards.len() && may_replace(deck, content, collection, missing, #[trigger] cards[i]) && r
            == ranked_entry(deck, collection, missing, cards[i])
}

/// Each candidate is the ranked entry of a card of `cards` that may
/// replace `missing`.
proof fn lemma_candidates_acceptable(
    cards: Seq<StoryCardDefinition>,
    deck: Seq<Seq<char>>,
    content: GameContent,
    collection: CollectionSave,
    missing: StoryCardDefinition,
)
    ensures
        forall|k: int| 0 <= k < candidates(cards, deck, content, collection, missing).len() ==> acceptable_entry(
            cards,
            deck,
            content,
            collection,
            missing,
            #[trigger] candidates(cards, deck, content, collection, missing)[k],
        ),
    decreases cards.len(),
{
    if cards.len() > 0 {
        let d = cards.drop_last();
        lemma_candidates_acceptable(d, deck, content, collection, missing);
        let prev = candidates(d, deck, content, collection, missing);
        let cur = candidates(cards, deck, content, collection, missing);
        assert forall|k: int| 0 <= k < cur.len() implies acceptable_entry(
            cards,
            deck,
            content,
            collection,
            missing,
            #[trigger] cur[k],
        ) by {
            if k < prev.len() {
                assert(cur[k] == prev[k]);
                assert(acceptable_entry(d, deck, content, collection, missing, prev[k]));
                let i = choose|i: int|
                    0 <= i < d.len() && may_replace(deck, content, collection, missing, #[trigger] d[i]) && prev[k]
                        == ranked_entry(deck, collection, missing, d[i]);
                assert(cards[i] == d[i]);
            } else {
                assert(cards[cards.len() - 1] == cards.last());
            }
        }
    }
}

/// Only acceptable cards are suggested: every ranked candidate, and so
/// every suggested id, belongs to a card of the content, other than the
/// missing one, of the same speed, that the collection owns more copies of
/// than the deck holds and that the deck holds fewer copies of than the
/// limit; it is ranked by that card's score and name.
pub proof fn lemma_only_acceptable_suggested(
    deck: Seq<Seq<char>>,
    content: GameContent,
    collection: CollectionSave,
    missing: StoryCardDefinition,
)
    ensures
        forall|k: int| 0 <= k < ranked_candidates(deck, content, collection, missing).len() ==> acceptable_entry(
            content.story_cards@,
            deck,
            content,
            collection,
            missing,
            #[trigger] ranked_candidates(deck, content, collection, missing)[k],
        ),
{
    let cards = content.story_cards@;
    let all = candidates(cards, deck, content, collection, missing);
    let ranked = ranked_candidates(deck, content, collection, missing);
    lemma_candidates_acceptable(cards, deck, content, collection, missing);
    lemma_stable_sort_members(all, ranking());
    assert forall|k: int| 0 <= k < ranked.len() implies acceptable_entry(
        cards,
        deck,
        content,
        collection,
        missing,
        #[trigger] ranked[k],
    ) by {
        assert(ranked.contains(ranked[k]));
        let q = choose|q: int| 0 <= q < all.len() && all[q] == ranked[k];
        assert(acceptable_entry(cards, deck, content, collection, missing, all[q]));
    }
}

/// The score of `candidate` in place of `missing`.
fn replacement_score(
    deck: &DeckPreset,
    collection: &CollectionSave,
    missing_card: &StoryCardDefinition,
    candidate: &StoryCardDefinition,
) -> (res: u8)
    ensures
        res == score_of(views(deck.story_cards@), *collection, *missing_card, *candidate),
{
    let mut score: u8 = 0;
    if candidate.alignment == missing_card.alignment {
        score = score + 4;
    }
    if eq_ignore_ascii_case(candidate.card_type.as_str(), missing_card.card_type.as_str()) {
        score = score + 2;
    }
    if collection.owned_count(CollectionCardKind::StoryCard, candidate.id.as_str()) > 0 {
        score = score + 1;
    }
    if contains_text_entry(&deck.story_cards, candidate.id.as_str()) {
        score = score + 1;
    }
    score
}

/// Whether `x` ranks strictly before `y`.
fn ranks_before_exec(x: &(u8, usize), y: &(u8, usize), cards: &Vec<StoryCardDefinition>) -> (res: bool)
    requires
        x.1 < cards@.len(),
        y.1 < cards@.len(),
    ensures
        res == ranks_before(
            (x.0, cards@[x.1 as int].name@, cards@[x.1 as int].id@),
            (y.0, cards@[y.1 as int].name@, cards@[y.1 as int].id@),
        ),
{
    if x.0 > y.0 {
        return true;
    }
    if x.0 < y.0 {
        return false;
    }
    match compare_text(cards[x.1].name.as_str(), cards[y.1].name.as_str()) {
        Order::Less => true,
        _ => false,
    }
}

/// The view of a ranked entry.
pub open spec fn ranked_view(r: (u8, usize), cards: Seq<StoryCardDefinition>) -> Ranked {
    (r.0, cards[r.1 as int].name@, cards[r.1 as int].id@)
}

/// The ids of the best `limit` replacements for `missing_card`.
fn replacement_ids(
    deck: &DeckPreset,
    content: &GameContent,
    collection: &CollectionSave,
    missing_card: &StoryCardDefinition,
    limit: usize,
) -> (res: Vec<String>)
    ensures
        views(res@) == suggested_ids(views(deck.story_cards@), *content, *collection, *missing_card, limit as int),
{
    let cards = &content.story_cards;
    let ghost story = views(deck.story_cards@);
    let ghost all = candidates(cards@, story, *content, *collection, *missing_card);
    let mut sorted: Vec<(u8, usize)> = Vec::new();
    let ghost mut inserted: Seq<Ranked> = Seq::empty();
    let mut i: usize = 0;
    while i < cards.len()
        invariant
            i <= cards.len(),
            cards == &content.story_cards,
            story == views(deck.story_cards@),
            inserted == candidates(cards@.take(i as int), story, *content, *collection, *missing_card),
            forall|j: int| 0 <= j < sorted@.len() ==> (#[trigger] sorted@[j]).1 < cards@.len(),
            sorted@.map_values(|r: (u8, usize)| ranked_view(r, cards@)) == stable_sort(inserted, ranking()),
        decreases cards.len() - i,
    {
        let candidate = &cards[i];
        proof {
            assert(cards@.take(i + 1).drop_last() =~= cards@.take(i as int));
            assert(cards@.take(i + 1).last() == cards@[i as int]);
        }
        let in_deck = count_text(&deck.story_cards, candidate.id.as_str());
        let owned_copies = collection.owned_count(CollectionCardKind::StoryCard, candidate.id.as_str());
        let acceptable = !text_eq(candidate.id.as_str(), missing_card.id.as_str()) && owned_copies > in_deck as u32
            && in_deck < content.deck_rules.max_copies_per_story_card && candidate.speed == missing_card.speed;
        if acceptable {
            let score = replacement_score(deck, collection, missing_card, candidate);
            let x = (score, i);
            let ghost xv = ranked_view(x, cards@);
            let ghost sv = sorted@.map_values(|r: (u8, usize)| ranked_view(r, cards@));
            let mut j: usize = 0;
            while j < sorted.len() && !ranks_before_exec(&x, &sorted[j], cards)
                invariant
                    j <= sorted.len(),
                    i < cards@.len(),
                    x.1 == i,
                    xv == ranked_view(x, cards@),
                    sv == sorted@.map_values(|r: (u8, usize)| ranked_view(r, cards@)),
                    forall|k: int| 0 <= k < sorted@.len() ==> (#[trigger] sorted@[k]).1 < cards@.len(),
                    forall|k: int| 0 <= k < j ==> !(#[trigger] preceded_by(ranking(), xv)(sv[k])),
                decreases sorted.len() - j,
            {
                assert(sv[j as int] == ranked_view(sorted@[j as int], cards@));
                j = j + 1;
            }
            proof {
                if j < sorted.len() {
                    assert(sv[j as int] == ranked_view(sorted@[j as int], cards@));
                    lemma_find_index_at(sv, preceded_by(ranking(), xv), j as int);
                } else {
                    lemma_find_index_none(sv, preceded_by(ranking(), xv));
                }
            }
            sorted.insert(j, x);
            proof {
                inserted = inserted.push(xv);
                assert(sorted@.map_values(|r: (u8, usize)| ranked_view(r, cards@)) =~= sv.insert(j as int, xv));
                assert(inserted.drop_last() =~= candidates(cards@.take(i as int), story, *content, *collection, *missing_card));
            }
        }
        i = i + 1;
    }
    assert(cards@.take(cards.len() as int) =~= cards@);
    assert(ranking() == (|x: Ranked, y: Ranked| ranks_before(x, y)));
    let ghost sv = sorted@.map_values(|r: (u8, usize)| ranked_view(r, cards@));
    let mut res: Vec<String> = Vec::new();
    let mut k: usize = 0;
    while k < sorted.len() && k < limit
        invariant
            k <= sorted.len(),
            k <= limit,
            sv == sorted@.map_values(|r: (u8, usize)| ranked_view(r, cards@)),
            forall|j: int| 0 <= j < sorted@.len() ==> (#[trigger] sorted@[j]).1 < cards@.len(),
            views(res@) == sv.take(k as int).map_values(|r: Ranked| r.2),
        decreases sorted.len() - k,
    {
        let ghost before = views(res@);
        let id = cards[sorted[k].1].id.clone();
        res.push(id);
        assert(sv[k as int] == ranked_view(sorted@[k as int], cards@));
        assert(views(res@) =~= before.push(sv[k as int].2));
        assert(views(res@) =~= sv.take(k + 1).map_values(|r: Ranked| r.2));
        k = k + 1;
    }
    assert((if sv.len() > limit { sv.take(limit as int) } else { sv }) =~= sv.take(k as int));
    res
}

/// For each story card the collection lacks copies of, the best owned
/// cards of the same speed to use instead (at most `max_per_missing`).
pub fn suggest_story_replacements(
    deck: &DeckPreset,
    content: &GameContent,
    collection: &CollectionSave,
    max_per_missing: usize,
) -> (res: Vec<DeckReplacementSuggestion>)
    requires
        deck.story_cards@.len() + deck.magical_girl_roster@.len() + deck.baddie_roster@.len() <= usize::MAX,
    ensures
        suggestion_views(res@) == suggestions_for(
            missing_amounts(
                sorted_keys(views(deck.story_cards@)),
                views(deck.story_cards@),
                *collection,
                CollectionCardKind::StoryCard,
            ),
            views(deck.story_cards@),
            *content,
            *collection,
            max_per_missing as int,
        ),
{
    let validation = DeckValidation::for_deck(deck, &content.deck_rules, collection);
    let missing = validation.missing_story_cards;
    let ghost mv = count_views(missing@);
    let ghost story = views(deck.story_cards@);
    let mut suggestions: Vec<DeckReplacementSuggestion> = Vec::new();
    let mut i: usize = 0;
    while i < missing.len()
        invariant
            i <= missing.len(),
            mv == count_views(missing@),
            story == views(deck.story_cards@),
            suggestion_views(suggestions@) == suggestions_for(mv.take(i as int), story, *content, *collection, max_per_missing as int),
        decreases missing.len() - i,
    {
        proof {
            assert(mv.take(i + 1).drop_last() =~= mv.take(i as int));
            assert(mv.take(i + 1).last() == mv[i as int]);
            assert(mv[i as int].0 == missing@[i as int].id@);
        }
        let id = missing[i].id.as_str();
        let found = card_position(&content.story_cards, id);
        match found {
            Some(c) => {
                proof {
                    crate::seqs::lemma_find_index(content.story_cards@, card_has_id(id@));
                }
                let ids = replacement_ids(deck, content, collection, &content.story_cards[c], max_per_missing);
                if ids.len() > 0 {
                    let ghost before = suggestion_views(suggestions@);
                    let s = DeckReplacementSuggestion { missing_card_id: missing[i].id.clone(), replacement_card_ids: ids };
                    suggestions.push(s);
                    assert(suggestion_views(suggestions@) =~= before.push((id@, views(ids@))));
                }
            },
            None => {},
        }
        i = i + 1;
    }
    assert(mv.take(missing.len() as int) =~= mv);
    suggestions
}

} // verus!
