//! Deck validation for the deck builder: sizes, copy limits and which
//! cards the collection lacks.

use vstd::prelude::*;

use crate::collection::{CollectionCardKind, CollectionSave};
use crate::data::DeckRules;
use crate::deck_browser::{compare_text, text_order, Order};
use crate::decks::DeckPreset;
use crate::seqs::{count_of, find_index, is_text, lemma_count_contains, lemma_count_push, lemma_pigeonhole,
    lemma_find_index, lemma_find_index_at, lemma_find_index_none, position_of_text, views};

verus! {

/// An id with a number of copies.
#[derive(Clone, Debug, PartialEq, Eq)]
pub struct DeckValidationCount {
    pub id: String,
    pub count: usize,
}

/// What is wrong (or right) with a deck.
#[derive(Clone, Debug, PartialEq, Eq)]
pub struct DeckValidation {
    pub support_card_count: usize,
    pub required_support_card_count: usize,
    pub support_card_count_valid: bool,
    pub magical_girl_roster_count: usize,
    pub required_magical_girl_roster_count: usize,
    pub magical_girl_roster_valid: bool,
    pub baddie_roster_count: usize,
    pub required_baddie_roster_count: usize,
    pub baddie_roster_valid: bool,
    pub duplicate_story_cards: Vec<String>,
    pub duplicate_magical_girls: Vec<String>,
    pub duplicate_baddies: Vec<String>,
    pub missing_story_cards: Vec<DeckValidationCount>,
    pub missing_magical_girls: Vec<String>,
    pub missing_baddies: Vec<String>,
    pub missing_card_total: usize,
    pub is_collection_complete: bool,
    pub is_legal: bool,
}

// ---------------------------------------------------------------------------
// Specifications
// ---------------------------------------------------------------------------

/// `y` does not come before `x` in text order.
pub open spec fn not_before(x: Seq<char>) -> spec_fn(Seq<char>) -> bool {
    |y: Seq<char>| text_order(y, x) != Order::Less
}

/// `sorted` with `x` added in text order unless already present.
pub open spec fn insert_key(sorted: Seq<Seq<char>>, x: Seq<char>) -> Seq<Seq<char>> {
    if sorted.contains(x) {
        sorted
    } else {
        let j = match find_index(sorted, not_before(x)) {
            Some(j) => j,
            None => sorted.len() as int,
        };
        sorted.insert(j, x)
    }
}

/// The distinct entries of `s` in text order.
pub open spec fn sorted_keys(s: Seq<Seq<char>>) -> Seq<Seq<char>>
    decreases s.len(),
{
    if s.len() == 0 {
        s
    } else {
        insert_key(sorted_keys(s.drop_last()), s.last())
    }
}

/// The keys whose count in `s` is above `limit`, in order.
pub open spec fn keys_over(keys: Seq<Seq<char>>, s: Seq<Seq<char>>, limit: nat) -> Seq<Seq<char>>
    decreases keys.len(),
{
    if keys.len() == 0 {
        keys
    } else {
        let prev = keys_over(keys.drop_last(), s, limit);
        if count_of(s, keys.last()) > limit {
            prev.push(keys.last())
        } else {
            prev
        }
    }
}

/// The keys the collection holds fewer copies of (of `kind`) than `s` uses, in order.
pub open spec fn keys_missing(
    keys: Seq<Seq<char>>,
    s: Seq<Seq<char>>,
    collection: CollectionSave,
    kind: CollectionCardKind,
) -> Seq<Seq<char>>
    decreases keys.len(),
{
    if keys.len() == 0 {
        keys
    } else {
        let prev = keys_missing(keys.drop_last(), s, collection, kind);
        if (collection.count(kind, keys.last()) as nat) < count_of(s, keys.last()) {
            prev.push(keys.last())
        } else {
            prev
        }
    }
}

/// For each missing key, how many copies are missing.
pub open spec fn missing_amounts(
    keys: Seq<Seq<char>>,
    s: Seq<Seq<char>>,
    collection: CollectionSave,
    kind: CollectionCardKind,
) -> Seq<(Seq<char>, nat)> {
    keys_missing(keys, s, collection, kind).map_values(
        |k: Seq<char>| (k, (count_of(s, k) - collection.count(kind, k)) as nat),
    )
}

/// Sum of the amounts.
pub open spec fn amount_total(a: Seq<(Seq<char>, nat)>) -> nat
    decreases a.len(),
{
    if a.len() == 0 {
        0
    } else {
        amount_total(a.drop_last()) + a.last().1
    }
}

/// The content of a validation count.
pub open spec fn count_views(v: Seq<DeckValidationCount>) -> Seq<(Seq<char>, nat)> {
    v.map_values(|c: DeckValidationCount| (c.id@, c.count as nat))
}

/// The validation of `deck` under `rules` against `collection`.
pub open spec fn validation_of(
    deck: DeckPreset,
    rules: DeckRules,
    collection: CollectionSave,
    v: DeckValidation,
) -> bool {
    let story = views(deck.story_cards@);
    let mg = views(deck.magical_girl_roster@);
    let bd = views(deck.baddie_roster@);
    let missing = missing_amounts(sorted_keys(story), story, collection, CollectionCardKind::StoryCard);
    let missing_mg = keys_missing(sorted_keys(mg), mg, collection, CollectionCardKind::MagicalGirl);
    let missing_bd = keys_missing(sorted_keys(bd), bd, collection, CollectionCardKind::Baddie);
    let dup_story = keys_over(sorted_keys(story), story, rules.max_copies_per_story_card as nat);
    let dup_mg = keys_over(sorted_keys(mg), mg, 1);
    let dup_bd = keys_over(sorted_keys(bd), bd, 1);
    let total = amount_total(missing) + missing_mg.len() + missing_bd.len();
    &&& v.support_card_count == story.len()
    &&& v.required_support_card_count == rules.support_deck_size
    &&& v.support_card_count_valid == (story.len() == rules.support_deck_size)
    &&& v.magical_girl_roster_count == mg.len()
    &&& v.required_magical_girl_roster_count == 5
    &&& v.magical_girl_roster_valid == (mg.len() == 5)
    &&& v.baddie_roster_count == bd.len()
    &&& v.required_baddie_roster_count == 5
    &&& v.baddie_roster_valid == (bd.len() == 5)
    &&& views(v.duplicate_story_cards@) == dup_story
    &&& views(v.duplicate_magical_girls@) == dup_mg
    &&& views(v.duplicate_baddies@) == dup_bd
    &&& count_views(v.missing_story_cards@) == missing
    &&& views(v.missing_magical_girls@) == missing_mg
    &&& views(v.missing_baddies@) == missing_bd
    &&& v.missing_card_total == total
    &&& v.is_collection_complete == (total == 0)
    &&& v.is_legal == (story.len() == rules.support_deck_size && dup_story.len() == 0 && dup_mg.len() == 0
        && dup_bd.len() == 0 && mg.len() == 5 && bd.len() == 5 && total == 0)
}

// ---------------------------------------------------------------------------
// Counting
// ---------------------------------------------------------------------------

/// The distinct ids of `entries` in text order, each with its count.
fn count_entries(entries: &Vec<String>) -> (res: (Vec<String>, Vec<usize>))
    ensures
        views(res.0@) == sorted_keys(views(entries@)),
        res.1@.len() == res.0@.len(),
        forall|j: int| 0 <= j < res.0@.len() ==> #[trigger] res.1@[j] == count_of(views(entries@), res.0@[j]@),
        forall|j: int| 0 <= j < res.0@.len() ==> #[trigger] res.1@[j] <= entries@.len(),
{
    let ghost s = views(entries@);
    let mut keys: Vec<String> = Vec::new();
    let mut counts: Vec<usize> = Vec::new();
    let mut i: usize = 0;
    while i < entries.len()
        invariant
            i <= entries.len(),
            s == views(entries@),
            views(keys@) == sorted_keys(s.take(i as int)),
            views(keys@).no_duplicates(),
            counts@.len() == keys@.len(),
            forall|k: Seq<char>| views(keys@).contains(k) <==> s.take(i as int).contains(k),
            forall|j: int| 0 <= j < keys@.len() ==> #[trigger] counts@[j] == count_of(s.take(i as int), keys@[j]@),
            forall|j: int| 0 <= j < keys@.len() ==> #[trigger] counts@[j] <= i,
        decreases entries.len() - i,
    {
        let ghost prefix = s.take(i as int);
        let ghost next = s.take(i + 1);
        let ghost x = entries@[i as int]@;
        let ghost kv = views(keys@);
        proof {
            assert(next =~= prefix.push(x));
            assert(next.drop_last() =~= prefix);
            assert(s[i as int] == x);
            assert forall|k: Seq<char>| #![auto] count_of(next, k) == count_of(prefix, k) + if x == k {
                1nat
            } else {
                0nat
            } by {
                lemma_count_push(prefix, x, k);
            }
            crate::seqs::lemma_count_bound(prefix, x);
            assert(forall|k: Seq<char>| kv.contains(k) <==> prefix.contains(k));
        }
        match position_of_text(&keys, entries[i].as_str()) {
            Some(j) => {
                proof {
                    lemma_find_index(kv, is_text(x));
                    assert(kv[j as int] == keys@[j as int]@);
                    assert(kv.contains(x));
                }
                let c = counts[j];
                counts.set(j, c + 1);
                proof {
                    assert forall|jj: int| 0 <= jj < keys@.len() implies #[trigger] counts@[jj] == count_of(
                        next,
                        keys@[jj]@,
                    ) by {
                        assert(kv[jj] == keys@[jj]@);
                        if jj != j {
                            assert(kv[jj] != kv[j as int]);
                        }
                    }
                    assert(views(keys@) == kv);
                    assert forall|k: Seq<char>| views(keys@).contains(k) <==> (kv.contains(k) || k == x) by {
                        if k == x {
                            assert(kv[j as int] == x);
                        }
                    }
                }
            },
            None => {
                proof {
                    lemma_find_index(kv, is_text(x));
                    if kv.contains(x) {
                        let jj = choose|jj: int| 0 <= jj < kv.len() && kv[jj] == x;
                        lemma_find_index(kv, is_text(x));
                        assert(is_text(x)(kv[jj]));
                    }
                    lemma_count_contains(prefix, x);
                }
                let mut p: usize = 0;
                while p < keys.len() && compare_text(keys[p].as_str(), entries[i].as_str()) == Order::Less
                    invariant
                        p <= keys.len(),
                        i < entries.len(),
                        kv == views(keys@),
                        x == entries@[i as int]@,
                        forall|q: int| 0 <= q < p ==> !(#[trigger] not_before(x)(kv[q])),
                    decreases keys.len() - p,
                {
                    assert(kv[p as int] == keys@[p as int]@);
                    p = p + 1;
                }
                proof {
                    if p < keys.len() {
                        assert(kv[p as int] == keys@[p as int]@);
                        lemma_find_index_at(kv, not_before(x), p as int);
                    } else {
                        lemma_find_index_none(kv, not_before(x));
                    }
                }
                keys.insert(p, entries[i].clone());
                counts.insert(p, 1);
                proof {
                    assert(views(keys@) =~= kv.insert(p as int, x));
                    assert forall|k: Seq<char>| views(keys@).contains(k) <==> (kv.contains(k) || k == x) by {
                        let w = views(keys@);
                        if w.contains(k) {
                            let q = choose|q: int| 0 <= q < w.len() && w[q] == k;
                            if q < p {
                                assert(kv[q] == k);
                            } else if q > p {
                                assert(kv[q - 1] == k);
                            }
                        }
                        if kv.contains(k) {
                            let q = choose|q: int| 0 <= q < kv.len() && kv[q] == k;
                            if q < p {
                                assert(w[q] == k);
                            } else {
                                assert(w[q + 1] == k);
                            }
                        }
                        if k == x {
                            assert(w[p as int] == x);
                        }
                    }
                    assert forall|a: int, b: int| 0 <= a < b < views(keys@).len() implies views(keys@)[a] != views(keys@)[b] by {
                        let w = views(keys@);
                        if a < p && b < p {
                            assert(w[a] == kv[a] && w[b] == kv[b]);
                        } else if a < p && b == p {
                            assert(w[a] == kv[a]);
                        } else if a < p {
                            assert(w[a] == kv[a] && w[b] == kv[b - 1]);
                        } else if a == p {
                            assert(w[b] == kv[b - 1]);
                        } else {
                            assert(w[a] == kv[a - 1] && w[b] == kv[b - 1]);
                        }
                    }
                    assert forall|jj: int| 0 <= jj < keys@.len() implies #[trigger] counts@[jj] == count_of(
                        next,
                        keys@[jj]@,
                    ) by {
                        if jj < p {
                            assert(kv[jj] == keys@[jj]@);
                        } else if jj > p {
                            assert(kv[jj - 1] == keys@[jj]@);
                        } else {
                            assert(keys@[jj]@ == x);
                        }
                    }
                }
            },
        }
        proof {
            assert forall|k: Seq<char>| views(keys@).contains(k) <==> next.contains(k) by {
                if k == x {
                    assert(next[i as int] == x);
                }
                if next.contains(k) {
                    let q = choose|q: int| 0 <= q < next.len() && next[q] == k;
                    if q < i {
                        assert(prefix[q] == k);
                    }
                }
                if prefix.contains(k) {
                    let q = choose|q: int| 0 <= q < prefix.len() && prefix[q] == k;
                    assert(next[q] == k);
                }
            }
            assert(sorted_keys(next) == insert_key(sorted_keys(prefix), x));
        }
        i = i + 1;
    }
    assert(s.take(entries.len() as int) =~= s);
    (keys, counts)
}

/// Sum over `keys` of their counts in `s`.
pub open spec fn sum_counts(keys: Seq<Seq<char>>, s: Seq<Seq<char>>) -> nat
    decreases keys.len(),
{
    if keys.len() == 0 {
        0
    } else {
        sum_counts(keys.drop_last(), s) + count_of(s, keys.last())
    }
}

proof fn lemma_count_no_dup(keys: Seq<Seq<char>>, x: Seq<char>)
    requires
        keys.no_duplicates(),
    ensures
        count_of(keys, x) <= 1,
    decreases keys.len(),
{
    if keys.len() > 0 {
        let d = keys.drop_last();
        assert(d.no_duplicates()) by {
            assert forall|a: int, b: int| 0 <= a < d.len() && 0 <= b < d.len() && a != b implies d[a] != d[b] by {
                assert(d[a] == keys[a] && d[b] == keys[b]);
            }
        }
        lemma_count_no_dup(d, x);
        if keys.last() == x && count_of(d, x) > 0 {
            lemma_count_contains(d, x);
            let q = choose|q: int| 0 <= q < d.len() && d[q] == x;
            assert(keys[q] == keys[keys.len() - 1]);
        }
    }
}

proof fn lemma_sum_counts_push(keys: Seq<Seq<char>>, s: Seq<Seq<char>>, x: Seq<char>)
    ensures
        sum_counts(keys, s.push(x)) == sum_counts(keys, s) + count_of(keys, x),
    decreases keys.len(),
{
    if keys.len() > 0 {
        lemma_sum_counts_push(keys.drop_last(), s, x);
        lemma_count_push(s, x, keys.last());
    }
}

proof fn lemma_sum_counts_bound(keys: Seq<Seq<char>>, s: Seq<Seq<char>>)
    requires
        keys.no_duplicates(),
    ensures
        sum_counts(keys, s) <= s.len(),
    decreases s.len(),
{
    if s.len() == 0 {
        lemma_sum_counts_empty(keys, s);
    } else {
        lemma_sum_counts_bound(keys, s.drop_last());
        assert(s.drop_last().push(s.last()) =~= s);
        lemma_sum_counts_push(keys, s.drop_last(), s.last());
        lemma_count_no_dup(keys, s.last());
    }
}

proof fn lemma_sum_counts_empty(keys: Seq<Seq<char>>, s: Seq<Seq<char>>)
    requires
        s.len() == 0,
    ensures
        sum_counts(keys, s) == 0,
    decreases keys.len(),
{
    if keys.len() > 0 {
        lemma_sum_counts_empty(keys.drop_last(), s);
    }
}

proof fn lemma_missing_total_bound(
    keys: Seq<Seq<char>>,
    s: Seq<Seq<char>>,
    collection: CollectionSave,
    kind: CollectionCardKind,
)
    ensures
        amount_total(missing_amounts(keys, s, collection, kind)) <= sum_counts(keys, s),
        keys_missing(keys, s, collection, kind).len() <= keys.len(),
    decreases keys.len(),
{
    if keys.len() > 0 {
        let d = keys.drop_last();
        lemma_missing_total_bound(d, s, collection, kind);
        let m = missing_amounts(keys, s, collection, kind);
        let md = missing_amounts(d, s, collection, kind);
        if (collection.count(kind, keys.last()) as nat) < count_of(s, keys.last()) {
            assert(m.drop_last() =~= md);
        } else {
            assert(m =~= md);
        }
    }
}

/// Every entry of `s` is among its sorted keys.
proof fn lemma_sorted_keys_complete(s: Seq<Seq<char>>)
    ensures
        forall|k: Seq<char>| s.contains(k) ==> sorted_keys(s).contains(k),
    decreases s.len(),
{
    if s.len() > 0 {
        let d = s.drop_last();
        lemma_sorted_keys_complete(d);
        let kd = sorted_keys(d);
        let x = s.last();
        let k = sorted_keys(s);
        if !kd.contains(x) {
            let j = match find_index(kd, not_before(x)) {
                Some(j) => j,
                None => kd.len() as int,
            };
            lemma_find_index(kd, not_before(x));
            assert(k == kd.insert(j, x));
            assert(k[j] == x);
            assert forall|y: Seq<char>| s.contains(y) implies k.contains(y) by {
                if y != x {
                    let q = choose|q: int| 0 <= q < s.len() && s[q] == y;
                    assert(d[q] == y);
                    assert(d.contains(y));
                    assert(kd.contains(y));
                    let r = choose|r: int| 0 <= r < kd.len() && kd[r] == y;
                    if r < j {
                        assert(k[r] == y);
                    } else {
                        assert(k[r + 1] == y);
                    }
                }
            }
        } else {
            assert forall|y: Seq<char>| s.contains(y) implies k.contains(y) by {
                if y != x {
                    let q = choose|q: int| 0 <= q < s.len() && s[q] == y;
                    assert(d[q] == y);
                    assert(d.contains(y));
                }
            }
        }
    }
}

/// No key is over the limit when none is listed over it.
proof fn lemma_keys_over_empty(keys: Seq<Seq<char>>, s: Seq<Seq<char>>, limit: nat)
    requires
        keys_over(keys, s, limit).len() == 0,
    ensures
        forall|i: int| 0 <= i < keys.len() ==> count_of(s, #[trigger] keys[i]) <= limit,
    decreases keys.len(),
{
    if keys.len() > 0 {
        let prev = keys_over(keys.drop_last(), s, limit);
        assert(prev.len() == 0);
        lemma_keys_over_empty(keys.drop_last(), s, limit);
        assert forall|i: int| 0 <= i < keys.len() implies count_of(s, #[trigger] keys[i]) <= limit by {
            if i < keys.len() - 1 {
                assert(keys.drop_last()[i] == keys[i]);
            }
        }
    }
}

/// Nothing is listed missing when the missing amounts add up to 0.
proof fn lemma_no_missing_amount(
    keys: Seq<Seq<char>>,
    s: Seq<Seq<char>>,
    collection: CollectionSave,
    kind: CollectionCardKind,
)
    requires
        amount_total(missing_amounts(keys, s, collection, kind)) == 0,
    ensures
        keys_missing(keys, s, collection, kind).len() == 0,
    decreases keys.len(),
{
    if keys.len() > 0 {
        let d = keys.drop_last();
        let m = missing_amounts(keys, s, collection, kind);
        let md = missing_amounts(d, s, collection, kind);
        if (collection.count(kind, keys.last()) as nat) < count_of(s, keys.last()) {
            assert(m.drop_last() =~= md);
            assert(m.last().1 > 0);
        } else {
            assert(m =~= md);
            lemma_no_missing_amount(d, s, collection, kind);
        }
    }
}

/// No key lacks copies when none is listed missing.
proof fn lemma_keys_missing_empty(
    keys: Seq<Seq<char>>,
    s: Seq<Seq<char>>,
    collection: CollectionSave,
    kind: CollectionCardKind,
)
    requires
        keys_missing(keys, s, collection, kind).len() == 0,
    ensures
        forall|i: int| 0 <= i < keys.len() ==> count_of(s, #[trigger] keys[i]) <= collection.count(kind, keys[i]),
    decreases keys.len(),
{
    if keys.len() > 0 {
        lemma_keys_missing_empty(keys.drop_last(), s, collection, kind);
        assert forall|i: int| 0 <= i < keys.len() implies count_of(s, #[trigger] keys[i]) <= collection.count(
            kind,
            keys[i],
        ) by {
            if i < keys.len() - 1 {
                assert(keys.drop_last()[i] == keys[i]);
            }
        }
    }
}

/// A complete collection owns, of every id, at least as many copies as the
/// deck uses: story cards, magical girls and baddies alike.
pub proof fn lemma_complete_collection_covers_deck(
    deck: DeckPreset,
    rules: DeckRules,
    collection: CollectionSave,
    v: DeckValidation,
)
    requires
        validation_of(deck, rules, collection, v),
        v.is_collection_complete,
    ensures
        v.missing_card_total == 0,
        v.missing_story_cards@.len() == 0 && v.missing_magical_girls@.len() == 0 && v.missing_baddies@.len() == 0,
        forall|id: Seq<char>| #[trigger] count_of(views(deck.story_cards@), id) <= collection.count(
            CollectionCardKind::StoryCard,
            id,
        ),
        forall|id: Seq<char>| #[trigger] count_of(views(deck.magical_girl_roster@), id) <= collection.count(
            CollectionCardKind::MagicalGirl,
            id,
        ),
        forall|id: Seq<char>| #[trigger] count_of(views(deck.baddie_roster@), id) <= collection.count(
            CollectionCardKind::Baddie,
            id,
        ),
{
    let story = views(deck.story_cards@);
    let mg = views(deck.magical_girl_roster@);
    let bd = views(deck.baddie_roster@);
    let ks = sorted_keys(story);
    let km = sorted_keys(mg);
    let kb = sorted_keys(bd);
    lemma_no_missing_amount(ks, story, collection, CollectionCardKind::StoryCard);
    assert(count_views(v.missing_story_cards@).len() == 0);
    assert(views(v.missing_magical_girls@).len() == 0);
    assert(views(v.missing_baddies@).len() == 0);
    lemma_sorted_keys_complete(story);
    lemma_sorted_keys_complete(mg);
    lemma_sorted_keys_complete(bd);
    lemma_keys_missing_empty(ks, story, collection, CollectionCardKind::StoryCard);
    lemma_keys_missing_empty(km, mg, collection, CollectionCardKind::MagicalGirl);
    lemma_keys_missing_empty(kb, bd, collection, CollectionCardKind::Baddie);
    assert forall|id: Seq<char>| #[trigger] count_of(story, id) <= collection.count(CollectionCardKind::StoryCard, id) by {
        if story.contains(id) {
            let r = choose|r: int| 0 <= r < ks.len() && ks[r] == id;
            assert(count_of(story, ks[r]) <= collection.count(CollectionCardKind::StoryCard, ks[r]));
        } else {
            lemma_count_contains(story, id);
        }
    }
    assert forall|id: Seq<char>| #[trigger] count_of(mg, id) <= collection.count(CollectionCardKind::MagicalGirl, id) by {
        if mg.contains(id) {
            let r = choose|r: int| 0 <= r < km.len() && km[r] == id;
            assert(count_of(mg, km[r]) <= collection.count(CollectionCardKind::MagicalGirl, km[r]));
        } else {
            lemma_count_contains(mg, id);
        }
    }
    assert forall|id: Seq<char>| #[trigger] count_of(bd, id) <= collection.count(CollectionCardKind::Baddie, id) by {
        if bd.contains(id) {
            let r = choose|r: int| 0 <= r < kb.len() && kb[r] == id;
            assert(count_of(bd, kb[r]) <= collection.count(CollectionCardKind::Baddie, kb[r]));
        } else {
            lemma_count_contains(bd, id);
        }
    }
}

/// Each key listed missing is used more often than the collection owns it.
proof fn lemma_keys_missing_lack(
    keys: Seq<Seq<char>>,
    s: Seq<Seq<char>>,
    collection: CollectionSave,
    kind: CollectionCardKind,
)
    ensures
        forall|k: int| 0 <= k < keys_missing(keys, s, collection, kind).len() ==> (collection.count(
            kind,
            #[trigger] keys_missing(keys, s, collection, kind)[k],
        ) as nat) < count_of(s, keys_missing(keys, s, collection, kind)[k]),
    decreases keys.len(),
{
    if keys.len() > 0 {
        let d = keys.drop_last();
        lemma_keys_missing_lack(d, s, collection, kind);
        let prev = keys_missing(d, s, collection, kind);
        let cur = keys_missing(keys, s, collection, kind);
        assert forall|k: int| 0 <= k < cur.len() implies (collection.count(kind, #[trigger] cur[k]) as nat)
            < count_of(s, cur[k]) by {
            if k < prev.len() {
                assert(cur[k] == prev[k]);
            }
        }
    }
}

/// Each missing story card is listed with the number of copies the deck
/// uses beyond those the collection owns, which is at least one; each
/// missing roster character is used more often than it is owned.
pub proof fn lemma_missing_counts(deck: DeckPreset, rules: DeckRules, collection: CollectionSave, v: DeckValidation)
    requires
        validation_of(deck, rules, collection, v),
    ensures
        forall|k: int| 0 <= k < v.missing_story_cards@.len() ==> {
            let m = #[trigger] v.missing_story_cards@[k];
            &&& m.count > 0
            &&& m.count + collection.count(CollectionCardKind::StoryCard, m.id@) == count_of(
                views(deck.story_cards@),
                m.id@,
            )
        },
        forall|k: int| 0 <= k < v.missing_magical_girls@.len() ==> collection.count(
            CollectionCardKind::MagicalGirl,
            (#[trigger] v.missing_magical_girls@[k])@,
        ) < count_of(views(deck.magical_girl_roster@), v.missing_magical_girls@[k]@),
        forall|k: int| 0 <= k < v.missing_baddies@.len() ==> collection.count(
            CollectionCardKind::Baddie,
            (#[trigger] v.missing_baddies@[k])@,
        ) < count_of(views(deck.baddie_roster@), v.missing_baddies@[k]@),
{
    let story = views(deck.story_cards@);
    let mg = views(deck.magical_girl_roster@);
    let bd = views(deck.baddie_roster@);
    let ks = keys_missing(sorted_keys(story), story, collection, CollectionCardKind::StoryCard);
    let km = keys_missing(sorted_keys(mg), mg, collection, CollectionCardKind::MagicalGirl);
    let kb = keys_missing(sorted_keys(bd), bd, collection, CollectionCardKind::Baddie);
    lemma_keys_missing_lack(sorted_keys(story), story, collection, CollectionCardKind::StoryCard);
    lemma_keys_missing_lack(sorted_keys(mg), mg, collection, CollectionCardKind::MagicalGirl);
    lemma_keys_missing_lack(sorted_keys(bd), bd, collection, CollectionCardKind::Baddie);
    let cv = count_views(v.missing_story_cards@);
    assert forall|k: int| 0 <= k < v.missing_story_cards@.len() implies ({
        let m = #[trigger] v.missing_story_cards@[k];
        &&& m.count > 0
        &&& m.count + collection.count(CollectionCardKind::StoryCard, m.id@) == count_of(story, m.id@)
    }) by {
        assert(cv[k] == (v.missing_story_cards@[k].id@, v.missing_story_cards@[k].count as nat));
        assert(cv.len() == ks.len());
        assert(cv[k].0 == ks[k]);
    }
    assert forall|k: int| 0 <= k < v.missing_magical_girls@.len() implies collection.count(
        CollectionCardKind::MagicalGirl,
        (#[trigger] v.missing_magical_girls@[k])@,
    ) < count_of(mg, v.missing_magical_girls@[k]@) by {
        assert(views(v.missing_magical_girls@)[k] == v.missing_magical_girls@[k]@);
        assert(km[k] == v.missing_magical_girls@[k]@);
    }
    assert forall|k: int| 0 <= k < v.missing_baddies@.len() implies collection.count(
        CollectionCardKind::Baddie,
        (#[trigger] v.missing_baddies@[k])@,
    ) < count_of(bd, v.missing_baddies@[k]@) by {
        assert(views(v.missing_baddies@)[k] == v.missing_baddies@[k]@);
        assert(kb[k] == v.missing_baddies@[k]@);
    }
}

/// A legal deck holds exactly the support deck size of story cards, no
/// story card more often than the copy limit, and five magical girls and
/// five baddies with none twice; and a deck with a story card over the copy
/// limit is never legal.
pub proof fn lemma_legal_decks_keep_the_limits(
    deck: DeckPreset,
    rules: DeckRules,
    collection: CollectionSave,
    v: DeckValidation,
)
    requires
        validation_of(deck, rules, collection, v),
    ensures
        v.duplicate_story_cards@.len() > 0 ==> !v.is_legal,
        v.duplicate_magical_girls@.len() > 0 || v.duplicate_baddies@.len() > 0 ==> !v.is_legal,
        v.is_legal == (v.support_card_count_valid && v.magical_girl_roster_valid && v.baddie_roster_valid
            && v.duplicate_story_cards@.len() == 0 && v.duplicate_magical_girls@.len() == 0
            && v.duplicate_baddies@.len() == 0 && v.is_collection_complete),
        v.is_legal ==> deck.story_cards@.len() == rules.support_deck_size,
        v.is_legal ==> forall|id: Seq<char>| #[trigger] count_of(views(deck.story_cards@), id) <= rules.max_copies_per_story_card,
        v.is_legal ==> deck.magical_girl_roster@.len() == 5 && deck.baddie_roster@.len() == 5,
        v.is_legal ==> forall|id: Seq<char>|
            #![trigger count_of(views(deck.magical_girl_roster@), id)]
            #![trigger count_of(views(deck.baddie_roster@), id)]
            count_of(views(deck.magical_girl_roster@), id) <= 1 && count_of(views(deck.baddie_roster@), id) <= 1,
{
    let story = views(deck.story_cards@);
    let mg = views(deck.magical_girl_roster@);
    let bd = views(deck.baddie_roster@);
    if v.is_legal {
        lemma_sorted_keys_complete(story);
        lemma_sorted_keys_complete(mg);
        lemma_sorted_keys_complete(bd);
        lemma_keys_over_empty(sorted_keys(story), story, rules.max_copies_per_story_card as nat);
        lemma_keys_over_empty(sorted_keys(mg), mg, 1);
        lemma_keys_over_empty(sorted_keys(bd), bd, 1);
        assert forall|id: Seq<char>| #[trigger] count_of(story, id) <= rules.max_copies_per_story_card by {
            if story.contains(id) {
                let r = choose|r: int| 0 <= r < sorted_keys(story).len() && sorted_keys(story)[r] == id;
                assert(count_of(story, sorted_keys(story)[r]) <= rules.max_copies_per_story_card);
            } else {
                lemma_count_contains(story, id);
            }
        }
        assert forall|id: Seq<char>|
            #![trigger count_of(mg, id)]
            #![trigger count_of(bd, id)]
            count_of(mg, id) <= 1 && count_of(bd, id) <= 1 by {
            if mg.contains(id) {
                let r = choose|r: int| 0 <= r < sorted_keys(mg).len() && sorted_keys(mg)[r] == id;
                assert(count_of(mg, sorted_keys(mg)[r]) <= 1);
            } else {
                lemma_count_contains(mg, id);
            }
            if bd.contains(id) {
                let r = choose|r: int| 0 <= r < sorted_keys(bd).len() && sorted_keys(bd)[r] == id;
                assert(count_of(bd, sorted_keys(bd)[r]) <= 1);
            } else {
                lemma_count_contains(bd, id);
            }
        }
    }
}

proof fn lemma_sorted_keys(s: Seq<Seq<char>>)
    ensures
        sorted_keys(s).no_duplicates(),
        forall|k: Seq<char>| sorted_keys(s).contains(k) ==> s.contains(k),
        sorted_keys(s).len() <= s.len(),
    decreases s.len(),
{
    if s.len() > 0 {
        let d = s.drop_last();
        lemma_sorted_keys(d);
        let kd = sorted_keys(d);
        let x = s.last();
        let k = sorted_keys(s);
        if !kd.contains(x) {
            let j = match find_index(kd, not_before(x)) {
                Some(j) => j,
                None => kd.len() as int,
            };
            lemma_find_index(kd, not_before(x));
            assert(k == kd.insert(j, x));
            assert forall|a: int, b: int| 0 <= a < b < k.len() implies k[a] != k[b] by {
                if a < j && b < j {
                    assert(k[a] == kd[a] && k[b] == kd[b]);
                } else if a < j && b == j {
                    assert(k[a] == kd[a]);
                } else if a < j {
                    assert(k[a] == kd[a] && k[b] == kd[b - 1]);
                } else if a == j {
                    assert(k[b] == kd[b - 1]);
                } else {
                    assert(k[a] == kd[a - 1] && k[b] == kd[b - 1]);
                }
            }
            assert forall|y: Seq<char>| k.contains(y) implies s.contains(y) by {
                let q = choose|q: int| 0 <= q < k.len() && k[q] == y;
                if q == j {
                    assert(s[s.len() - 1] == y);
                } else {
                    let qq = if q < j { q } else { q - 1 };
                    assert(kd[qq] == y);
                    assert(kd.contains(y));
                    assert(d.contains(y));
                    let r = choose|r: int| 0 <= r < d.len() && d[r] == y;
                    assert(s[r] == y);
                }
            }
        } else {
            assert forall|y: Seq<char>| k.contains(y) implies s.contains(y) by {
                assert(d.contains(y));
                let r = choose|r: int| 0 <= r < d.len() && d[r] == y;
                assert(s[r] == y);
            }
        }
        assert forall|i: int| 0 <= i < k.len() implies s.contains(#[trigger] k[i]) by {
            assert(k.contains(k[i]));
        }
        lemma_pigeonhole(k, s);
    }
}

/// The keys counted more than `limit` times.
fn duplicate_ids_for_counts(keys: &Vec<String>, counts: &Vec<usize>, limit: usize, Ghost(s): Ghost<Seq<Seq<char>>>) -> (res: Vec<String>)
    requires
        counts@.len() == keys@.len(),
        forall|j: int| 0 <= j < keys@.len() ==> #[trigger] counts@[j] == count_of(s, keys@[j]@),
    ensures
        views(res@) == keys_over(views(keys@), s, limit as nat),
{
    let ghost kv = views(keys@);
    let mut res: Vec<String> = Vec::new();
    let mut i: usize = 0;
    while i < keys.len()
        invariant
            i <= keys.len(),
            counts@.len() == keys@.len(),
            kv == views(keys@),
            forall|j: int| 0 <= j < keys@.len() ==> #[trigger] counts@[j] == count_of(s, keys@[j]@),
            views(res@) == keys_over(kv.take(i as int), s, limit as nat),
        decreases keys.len() - i,
    {
        proof {
            assert(kv.take(i + 1).drop_last() =~= kv.take(i as int));
            assert(kv.take(i + 1).last() == keys@[i as int]@);
        }
        if counts[i] > limit {
            let ghost before = views(res@);
            res.push(keys[i].clone());
            assert(views(res@) =~= before.push(keys@[i as int]@));
        }
        i = i + 1;
    }
    assert(kv.take(keys.len() as int) =~= kv);
    res
}

/// The keys the collection holds fewer copies of than counted, with how many are missing.
fn missing_owned_counts(
    keys: &Vec<String>,
    counts: &Vec<usize>,
    collection: &CollectionSave,
    kind: CollectionCardKind,
    Ghost(s): Ghost<Seq<Seq<char>>>,
) -> (res: Vec<DeckValidationCount>)
    requires
        counts@.len() == keys@.len(),
        forall|j: int| 0 <= j < keys@.len() ==> #[trigger] counts@[j] == count_of(s, keys@[j]@),
    ensures
        count_views(res@) == missing_amounts(views(keys@), s, *collection, kind),
{
    let ghost kv = views(keys@);
    let mut res: Vec<DeckValidationCount> = Vec::new();
    let mut i: usize = 0;
    while i < keys.len()
        invariant
            i <= keys.len(),
            counts@.len() == keys@.len(),
            kv == views(keys@),
            forall|j: int| 0 <= j < keys@.len() ==> #[trigger] counts@[j] == count_of(s, keys@[j]@),
            count_views(res@) == missing_amounts(kv.take(i as int), s, *collection, kind),
        decreases keys.len() - i,
    {
        proof {
            assert(kv.take(i + 1).drop_last() =~= kv.take(i as int));
            assert(kv.take(i + 1).last() == keys@[i as int]@);
        }
        let owned_copies = collection.owned_count(kind, keys[i].as_str());
        let ghost before = count_views(res@);
        let ghost m0 = keys_missing(kv.take(i as int), s, *collection, kind);
        let ghost m1 = keys_missing(kv.take(i + 1), s, *collection, kind);
        if (owned_copies as usize) < counts[i] {
            let entry = DeckValidationCount { id: keys[i].clone(), count: counts[i] - owned_copies as usize };
            res.push(entry);
            assert(m1 =~= m0.push(keys@[i as int]@));
            let ghost k = keys@[i as int]@;
            let ghost item = (k, (count_of(s, k) - collection.count(kind, k)) as nat);
            assert(count_views(res@) =~= before.push(item));
            assert(missing_amounts(kv.take(i + 1), s, *collection, kind) =~= missing_amounts(
                kv.take(i as int),
                s,
                *collection,
                kind,
            ).push(item));
        } else {
            assert(m1 =~= m0);
            assert(count_views(res@) =~= missing_amounts(kv.take(i + 1), s, *collection, kind));
        }
        i = i + 1;
    }
    assert(kv.take(keys.len() as int) =~= kv);
    res
}

/// The keys the collection holds fewer copies of than counted.
fn missing_owned_ids(
    keys: &Vec<String>,
    counts: &Vec<usize>,
    collection: &CollectionSave,
    kind: CollectionCardKind,
    Ghost(s): Ghost<Seq<Seq<char>>>,
) -> (res: Vec<String>)
    requires
        counts@.len() == keys@.len(),
        forall|j: int| 0 <= j < keys@.len() ==> #[trigger] counts@[j] == count_of(s, keys@[j]@),
    ensures
        views(res@) == keys_missing(views(keys@), s, *collection, kind),
{
    let ghost kv = views(keys@);
    let mut res: Vec<String> = Vec::new();
    let mut i: usize = 0;
    while i < keys.len()
        invariant
            i <= keys.len(),
            counts@.len() == keys@.len(),
            kv == views(keys@),
            forall|j: int| 0 <= j < keys@.len() ==> #[trigger] counts@[j] == count_of(s, keys@[j]@),
            views(res@) == keys_missing(kv.take(i as int), s, *collection, kind),
        decreases keys.len() - i,
    {
        proof {
            assert(kv.take(i + 1).drop_last() =~= kv.take(i as int));
            assert(kv.take(i + 1).last() == keys@[i as int]@);
        }
        let owned_copies = collection.owned_count(kind, keys[i].as_str());
        if (owned_copies as usize) < counts[i] {
            let ghost before = views(res@);
            res.push(keys[i].clone());
            assert(views(res@) =~= before.push(keys@[i as int]@));
        }
        i = i + 1;
    }
    assert(kv.take(keys.len() as int) =~= kv);
    res
}

impl DeckValidation {
    /// Validates `deck` under `deck_rules` against `collection`: deck and
    /// roster sizes (rosters hold five), copy limits (one per character),
    /// and the copies the collection lacks, each list in id order.
    pub fn for_deck(deck: &DeckPreset, deck_rules: &DeckRules, collection: &CollectionSave) -> (res: Self)
        requires
            deck.story_cards@.len() + deck.magical_girl_roster@.len() + deck.baddie_roster@.len() <= usize::MAX,
        ensures
            validation_of(*deck, *deck_rules, *collection, res),
    {
        let ghost story = views(deck.story_cards@);
        let ghost mg = views(deck.magical_girl_roster@);
        let ghost bd = views(deck.baddie_roster@);
        let support_card_count = deck.story_cards.len();
        let required_support_card_count = deck_rules.support_deck_size;
        let support_card_count_valid = support_card_count == required_support_card_count;
        let magical_girl_roster_count = deck.magical_girl_roster.len();
        let required_magical_girl_roster_count: usize = 5;
        let magical_girl_roster_valid = magical_girl_roster_count == required_magical_girl_roster_count;
        let baddie_roster_count = deck.baddie_roster.len();
        let required_baddie_roster_count: usize = 5;
        let baddie_roster_valid = baddie_roster_count == required_baddie_roster_count;

        let (story_keys, story_counts) = count_entries(&deck.story_cards);
        let (mg_keys, mg_counts) = count_entries(&deck.magical_girl_roster);
        let (bd_keys, bd_counts) = count_entries(&deck.baddie_roster);

        let duplicate_story_cards = duplicate_ids_for_counts(
            &story_keys,
            &story_counts,
            deck_rules.max_copies_per_story_card,
            Ghost(story),
        );
        let duplicate_magical_girls = duplicate_ids_for_counts(&mg_keys, &mg_counts, 1, Ghost(mg));
        let duplicate_baddies = duplicate_ids_for_counts(&bd_keys, &bd_counts, 1, Ghost(bd));

        let missing_story_cards = missing_owned_counts(
            &story_keys,
            &story_counts,
            collection,
            CollectionCardKind::StoryCard,
            Ghost(story),
        );
        let missing_magical_girls = missing_owned_ids(
            &mg_keys,
            &mg_counts,
            collection,
            CollectionCardKind::MagicalGirl,
            Ghost(mg),
        );
        let missing_baddies = missing_owned_ids(&bd_keys, &bd_counts, collection, CollectionCardKind::Baddie, Ghost(bd));

        proof {
            lemma_sorted_keys(story);
            lemma_sorted_keys(mg);
            lemma_sorted_keys(bd);
            lemma_sum_counts_bound(sorted_keys(story), story);
            lemma_missing_total_bound(sorted_keys(story), story, *collection, CollectionCardKind::StoryCard);
            lemma_missing_total_bound(sorted_keys(mg), mg, *collection, CollectionCardKind::MagicalGirl);
            lemma_missing_total_bound(sorted_keys(bd), bd, *collection, CollectionCardKind::Baddie);
        }
        let ghost missing = count_views(missing_story_cards@);
        let mut story_total: usize = 0;
        let mut i: usize = 0;
        while i < missing_story_cards.len()
            invariant
                i <= missing_story_cards.len(),
                missing == count_views(missing_story_cards@),
                amount_total(missing) <= story.len(),
                story.len() == deck.story_cards@.len(),
                deck.story_cards@.len() + deck.magical_girl_roster@.len() + deck.baddie_roster@.len() <= usize::MAX,
                story_total == amount_total(missing.take(i as int)),
            decreases missing_story_cards.len() - i,
        {
            proof {
                assert(missing.take(i + 1).drop_last() =~= missing.take(i as int));
                assert(missing.take(i + 1).last() == missing[i as int]);
                assert(missing[i as int].1 == missing_story_cards@[i as int].count as nat);
                lemma_amount_total_prefix(missing, i as int + 1);
                assert(amount_total(missing.take(i + 1)) == amount_total(missing.take(i as int)) + missing[i as int].1);
                assert(story_total + missing_story_cards@[i as int].count <= story.len());
            }
            story_total = story_total + missing_story_cards[i].count;
            i = i + 1;
        }
        assert(missing.take(missing_story_cards.len() as int) =~= missing);
        let missing_card_total = story_total + missing_magical_girls.len() + missing_baddies.len();
        let is_collection_complete = missing_card_total == 0;
        let has_duplicates = !duplicate_story_cards.is_empty() || !duplicate_magical_girls.is_empty()
            || !duplicate_baddies.is_empty();
        let has_roster_issues = !magical_girl_roster_valid || !baddie_roster_valid
            || !duplicate_magical_girls.is_empty() || !duplicate_baddies.is_empty();
        DeckValidation {
            support_card_count,
            required_support_card_count,
            support_card_count_valid,
            magical_girl_roster_count,
            required_magical_girl_roster_count,
            magical_girl_roster_valid,
            baddie_roster_count,
            required_baddie_roster_count,
            baddie_roster_valid,
            duplicate_story_cards,
            duplicate_magical_girls,
            duplicate_baddies,
            missing_story_cards,
            missing_magical_girls,
            missing_baddies,
            missing_card_total,
            is_collection_complete,
            is_legal: support_card_count_valid && !has_duplicates && !has_roster_issues && is_collection_complete,
        }
    }
}

/// A prefix sums to no more than the whole.
proof fn lemma_amount_total_prefix(a: Seq<(Seq<char>, nat)>, n: int)
    requires
        0 <= n <= a.len(),
    ensures
        amount_total(a.take(n)) <= amount_total(a),
    decreases a.len() - n,
{
    if n < a.len() {
        lemma_amount_total_prefix(a, n + 1);
        assert(a.take(n + 1).drop_last() =~= a.take(n));
    } else {
        assert(a.take(n) =~= a);
    }
}

} // verus!
