//! Versioned collection save data: how many copies of each character and
//! story card the player owns.

use vstd::prelude::*;

use crate::seqs::{count_of, find_first, find_index, lemma_count_push, lemma_find_index, lemma_find_index_at,
    lemma_find_index_none, views};
use crate::text::{owned, text_eq};

verus! {

/// Which inventory an id belongs to.
#[derive(Clone, Copy, Debug, PartialEq, Eq, Structural)]
pub enum CollectionCardKind {
    MagicalGirl,
    Baddie,
    StoryCard,
}

/// The owned counts, one inventory per kind. An inventory lists `(id, count)`
/// entries; the count of an id is that of its first entry, 0 when it has none.
#[derive(Clone, Debug)]
pub struct CollectionSave {
    pub version: u32,
    pub owned_magical_girls: Vec<(String, u32)>,
    pub owned_baddies: Vec<(String, u32)>,
    pub owned_story_cards: Vec<(String, u32)>,
}

/// The entry is for `id`.
pub open spec fn entry_has_id(id: Seq<char>) -> spec_fn((String, u32)) -> bool {
    |e: (String, u32)| e.0@ == id
}

/// No id has two entries in `inv`.
pub open spec fn ids_distinct(inv: Seq<(String, u32)>) -> bool {
    forall|i: int, j: int| 0 <= i < j < inv.len() ==> (#[trigger] inv[i]).0@ != (#[trigger] inv[j]).0@
}

/// The count that `inv` records for `id`.
pub open spec fn owned_in(inv: Seq<(String, u32)>, id: Seq<char>) -> u32 {
    match find_first(inv, entry_has_id(id)) {
        Some(e) => e.1,
        None => 0,
    }
}

impl CollectionSave {
    /// The inventory of `kind`.
    pub open spec fn inventory_of(self, kind: CollectionCardKind) -> Seq<(String, u32)> {
        match kind {
            CollectionCardKind::MagicalGirl => self.owned_magical_girls@,
            CollectionCardKind::Baddie => self.owned_baddies@,
            CollectionCardKind::StoryCard => self.owned_story_cards@,
        }
    }

    /// How many copies of `id` of `kind` are owned.
    pub open spec fn count(self, kind: CollectionCardKind, id: Seq<char>) -> u32 {
        owned_in(self.inventory_of(kind), id)
    }

    /// No inventory has two entries for one id, as a map from ids to counts.
    pub open spec fn inventories_distinct(self) -> bool {
        &&& ids_distinct(self.owned_magical_girls@)
        &&& ids_distinct(self.owned_baddies@)
        &&& ids_distinct(self.owned_story_cards@)
    }

    /// The inventories of the kinds other than `kind` are those of `other`.
    pub open spec fn others_unchanged(self, other: Self, kind: CollectionCardKind) -> bool {
        &&& self.version == other.version
        &&& forall|k: CollectionCardKind| k != kind ==> self.inventory_of(k) == other.inventory_of(k)
    }

    /// Adds `amount` copies of `id` to the inventory of `kind`.
    pub fn add_owned(&mut self, kind: CollectionCardKind, id: &str, amount: u32)
        requires
            old(self).count(kind, id@) + amount <= u32::MAX,
        ensures
            old(self).inventories_distinct() ==> final(self).inventories_distinct(),
            final(self).others_unchanged(*old(self), kind),
            forall|k: Seq<char>| #[trigger]
                final(self).count(kind, k) == if k == id@ {
                    (old(self).count(kind, k) + amount) as u32
                } else {
                    old(self).count(kind, k)
                },
            amount == 0 ==> *final(self) == *old(self),
    {
        if amount == 0 {
            return;
        }
        match kind {
            CollectionCardKind::MagicalGirl => add_to(&mut self.owned_magical_girls, id, amount),
            CollectionCardKind::Baddie => add_to(&mut self.owned_baddies, id, amount),
            CollectionCardKind::StoryCard => add_to(&mut self.owned_story_cards, id, amount),
        }
    }

    /// How many copies of `id` of `kind` are owned.
    pub fn owned_count(&self, kind: CollectionCardKind, id: &str) -> (res: u32)
        ensures
            res == self.count(kind, id@),
    {
        match kind {
            CollectionCardKind::MagicalGirl => lookup(&self.owned_magical_girls, id),
            CollectionCardKind::Baddie => lookup(&self.owned_baddies, id),
            CollectionCardKind::StoryCard => lookup(&self.owned_story_cards, id),
        }
    }

    /// Owned copies of a story card that a deck already holding
    /// `cards_in_deck` copies can still take (never below zero).
    pub fn story_cards_available_for_deck(&self, card_id: &str, cards_in_deck: usize) -> (res: u32)
        ensures
            res == if self.count(CollectionCardKind::StoryCard, card_id@) > (cards_in_deck as u32) {
                (self.count(CollectionCardKind::StoryCard, card_id@) - (cards_in_deck as u32)) as u32
            } else {
                0
            },
    {
        let owned_copies = self.owned_count(CollectionCardKind::StoryCard, card_id);
        let in_deck = cards_in_deck as u32;
        if owned_copies > in_deck {
            owned_copies - in_deck
        } else {
            0
        }
    }

    /// Makes every listed character owned at least three times.
    pub fn ensure_full_roster_owned(&mut self, magical_girl_ids: &[String], baddie_ids: &[String])
        ensures
            old(self).inventories_distinct() ==> final(self).inventories_distinct(),
            final(self).version == old(self).version,
            final(self).owned_story_cards@ == old(self).owned_story_cards@,
            forall|k: Seq<char>| #[trigger]
                final(self).count(CollectionCardKind::MagicalGirl, k) == if views(
                    magical_girl_ids@,
                ).contains(k) && old(self).count(CollectionCardKind::MagicalGirl, k) < 3 {
                    3
                } else {
                    old(self).count(CollectionCardKind::MagicalGirl, k)
                },
            forall|k: Seq<char>| #[trigger]
                final(self).count(CollectionCardKind::Baddie, k) == if views(baddie_ids@).contains(k)
                    && old(self).count(CollectionCardKind::Baddie, k) < 3 {
                    3
                } else {
                    old(self).count(CollectionCardKind::Baddie, k)
                },
            forall|k: Seq<char>|
                #![trigger final(self).count(CollectionCardKind::MagicalGirl, k)]
                #![trigger final(self).count(CollectionCardKind::Baddie, k)]
                final(self).count(CollectionCardKind::MagicalGirl, k) >= old(self).count(CollectionCardKind::MagicalGirl, k)
                    && final(self).count(CollectionCardKind::Baddie, k) >= old(self).count(CollectionCardKind::Baddie, k),
            forall|k: Seq<char>|
                views(magical_girl_ids@).contains(k) ==> #[trigger] final(self).count(CollectionCardKind::MagicalGirl, k) >= 3,
            forall|k: Seq<char>|
                views(baddie_ids@).contains(k) ==> #[trigger] final(self).count(CollectionCardKind::Baddie, k) >= 3,
    {
        raise_all(&mut self.owned_magical_girls, magical_girl_ids, 3);
        raise_all(&mut self.owned_baddies, baddie_ids, 3);
    }

    /// Raises the count of `id` of `kind` to `minimum` when it is below.
    pub fn ensure_min_owned(&mut self, kind: CollectionCardKind, id: &str, minimum: u32)
        ensures
            old(self).inventories_distinct() ==> final(self).inventories_distinct(),
            final(self).others_unchanged(*old(self), kind),
            forall|k: Seq<char>| #[trigger]
                final(self).count(kind, k) == if k == id@ && old(self).count(kind, k) < minimum {
                    minimum
                } else {
                    old(self).count(kind, k)
                },
            forall|k: Seq<char>| #[trigger] final(self).count(kind, k) >= old(self).count(kind, k),
            final(self).count(kind, id@) >= minimum,
    {
        match kind {
            CollectionCardKind::MagicalGirl => raise_to(&mut self.owned_magical_girls, id, minimum),
            CollectionCardKind::Baddie => raise_to(&mut self.owned_baddies, id, minimum),
            CollectionCardKind::StoryCard => raise_to(&mut self.owned_story_cards, id, minimum),
        }
    }
}

impl Default for CollectionSave {
    fn default() -> (r: Self)
        ensures
            r.version == 2,
            r.owned_magical_girls@.len() == 0,
            r.owned_baddies@.len() == 0,
            r.owned_story_cards@.len() == 0,
            r.inventories_distinct(),
    {
        CollectionSave {
            version: 2,
            owned_magical_girls: Vec::new(),
            owned_baddies: Vec::new(),
            owned_story_cards: Vec::new(),
        }
    }
}

/// Index of the first entry for `id`, if any.
fn position_of(inv: &Vec<(String, u32)>, id: &str) -> (res: Option<usize>)
    ensures
        match res {
            Some(i) => i < inv@.len() && inv@[i as int].0@ == id@ && find_index(inv@, entry_has_id(id@))
                == Some(i as int),
            None => find_first(inv@, entry_has_id(id@)) is None,
        },
{
    let mut i: usize = 0;
    while i < inv.len()
        invariant
            i <= inv.len(),
            forall|j: int| 0 <= j < i ==> !(#[trigger] entry_has_id(id@)(inv@[j])),
        decreases inv.len() - i,
    {
        if text_eq(inv[i].0.as_str(), id) {
            proof {
                lemma_find_index_at(inv@, entry_has_id(id@), i as int);
            }
            return Some(i);
        }
        i = i + 1;
    }
    proof {
        lemma_find_index_none(inv@, entry_has_id(id@));
    }
    None
}

/// The count recorded for `id`.
fn lookup(inv: &Vec<(String, u32)>, id: &str) -> (res: u32)
    ensures
        res == owned_in(inv@, id@),
{
    match position_of(inv, id) {
        Some(i) => inv[i].1,
        None => 0,
    }
}

/// Updating the count of the first entry for one id leaves every other id's count alone.
proof fn lemma_owned_update(inv: Seq<(String, u32)>, i: int, c: u32)
    requires
        0 <= i < inv.len(),
        find_index(inv, entry_has_id(inv[i].0@)) == Some(i),
    ensures
        forall|k: Seq<char>| #[trigger]
            owned_in(inv.update(i, (inv[i].0, c)), k) == if k == inv[i].0@ {
                c
            } else {
                owned_in(inv, k)
            },
{
    let id = inv[i].0@;
    let new = inv.update(i, (inv[i].0, c));
    lemma_find_index(inv, entry_has_id(id));
    assert forall|k: Seq<char>| #[trigger]
        owned_in(new, k) == if k == id {
            c
        } else {
            owned_in(inv, k)
        } by {
        lemma_find_index(inv, entry_has_id(k));
        lemma_find_index(new, entry_has_id(k));
        if k == id {
            assert forall|j: int| 0 <= j < i implies !(#[trigger] entry_has_id(k)(new[j])) by {
                assert(new[j] == inv[j]);
            }
            lemma_find_index_at(new, entry_has_id(k), i);
        } else {
            match find_index(inv, entry_has_id(k)) {
                Some(j) => {
                    assert(new[j] == inv[j]);
                    lemma_find_index_at(new, entry_has_id(k), j);
                },
                None => {
                    assert forall|j: int| 0 <= j < new.len() implies !(#[trigger] entry_has_id(k)(
                        new[j],
                    )) by {
                        if j != i {
                            assert(new[j] == inv[j]);
                        }
                    }
                    lemma_find_index_none(new, entry_has_id(k));
                },
            }
        }
    }
}

/// Appending an entry for an id that has none records it; others keep theirs.
proof fn lemma_owned_push(inv: Seq<(String, u32)>, e: (String, u32))
    requires
        find_first(inv, entry_has_id(e.0@)) is None,
    ensures
        forall|k: Seq<char>| #[trigger]
            owned_in(inv.push(e), k) == if k == e.0@ {
                e.1
            } else {
                owned_in(inv, k)
            },
{
    let new = inv.push(e);
    lemma_find_index(inv, entry_has_id(e.0@));
    assert forall|k: Seq<char>| #[trigger]
        owned_in(new, k) == if k == e.0@ {
            e.1
        } else {
            owned_in(inv, k)
        } by {
        lemma_find_index(inv, entry_has_id(k));
        if k == e.0@ {
            assert forall|j: int| 0 <= j < inv.len() implies !(#[trigger] entry_has_id(k)(new[j])) by {
                assert(new[j] == inv[j]);
            }
            lemma_find_index_at(new, entry_has_id(k), inv.len() as int);
        } else {
            match find_index(inv, entry_has_id(k)) {
                Some(j) => {
                    assert(new[j] == inv[j]);
                    assert forall|jj: int| 0 <= jj < j implies !(#[trigger] entry_has_id(k)(new[jj])) by {
                        assert(new[jj] == inv[jj]);
                    }
                    lemma_find_index_at(new, entry_has_id(k), j);
                },
                None => {
                    assert forall|j: int| 0 <= j < new.len() implies !(#[trigger] entry_has_id(k)(
                        new[j],
                    )) by {
                        if j < inv.len() {
                            assert(new[j] == inv[j]);
                        }
                    }
                    lemma_find_index_none(new, entry_has_id(k));
                },
            }
        }
    }
}

/// Sets the count of `id` to `c`.
fn set_count(inv: &mut Vec<(String, u32)>, id: &str, c: u32)
    ensures
        ids_distinct(old(inv)@) ==> ids_distinct(final(inv)@),
        forall|k: Seq<char>| #[trigger]
            owned_in(final(inv)@, k) == if k == id@ {
                c
            } else {
                owned_in(old(inv)@, k)
            },
{
    match position_of(inv, id) {
        Some(i) => {
            proof {
                lemma_owned_update(inv@, i as int, c);
            }
            let name = inv[i].0.clone();
            let ghost before = inv@;
            inv.set(i, (name, c));
            proof {
                if ids_distinct(before) {
                    assert forall|a: int, b: int| 0 <= a < b < inv@.len() implies (#[trigger] inv@[a]).0@ != (
                    #[trigger] inv@[b]).0@ by {
                        assert(inv@[a].0@ == before[a].0@ && inv@[b].0@ == before[b].0@);
                        assert(before[a].0@ != before[b].0@);
                    }
                }
            }
        },
        None => {
            let e = (owned(id), c);
            proof {
                lemma_owned_push(inv@, e);
                lemma_find_index(inv@, entry_has_id(id@));
            }
            let ghost before = inv@;
            inv.push(e);
            proof {
                if ids_distinct(before) {
                    assert forall|a: int, b: int| 0 <= a < b < inv@.len() implies (#[trigger] inv@[a]).0@ != (
                    #[trigger] inv@[b]).0@ by {
                        if b == before.len() {
                            assert(!entry_has_id(id@)(before[a]));
                        } else {
                            assert(inv@[a] == before[a] && inv@[b] == before[b]);
                            assert(before[a].0@ != before[b].0@);
                        }
                    }
                }
            }
        },
    }
}

/// Adds `amount` to the count of `id`.
fn add_to(inv: &mut Vec<(String, u32)>, id: &str, amount: u32)
    requires
        owned_in(old(inv)@, id@) + amount <= u32::MAX,
    ensures
        ids_distinct(old(inv)@) ==> ids_distinct(final(inv)@),
        forall|k: Seq<char>| #[trigger]
            owned_in(final(inv)@, k) == if k == id@ {
                (owned_in(old(inv)@, k) + amount) as u32
            } else {
                owned_in(old(inv)@, k)
            },
{
    let current = lookup(inv, id);
    set_count(inv, id, current + amount);
}

/// Raises the count of `id` to `minimum` when it is below.
fn raise_to(inv: &mut Vec<(String, u32)>, id: &str, minimum: u32)
    ensures
        ids_distinct(old(inv)@) ==> ids_distinct(final(inv)@),
        forall|k: Seq<char>| #[trigger]
            owned_in(final(inv)@, k) == if k == id@ && owned_in(old(inv)@, k) < minimum {
                minimum
            } else {
                owned_in(old(inv)@, k)
            },
{
    let current = lookup(inv, id);
    if current < minimum {
        set_count(inv, id, minimum);
    }
}

/// Raises the count of every listed id to `minimum` when it is below.
fn raise_all(inv: &mut Vec<(String, u32)>, ids: &[String], minimum: u32)
    ensures
        ids_distinct(old(inv)@) ==> ids_distinct(final(inv)@),
        forall|k: Seq<char>| #[trigger]
            owned_in(final(inv)@, k) == if views(ids@).contains(k) && owned_in(old(inv)@, k) < minimum {
                minimum
            } else {
                owned_in(old(inv)@, k)
            },
{
    let ghost start = inv@;
    let mut i: usize = 0;
    while i < ids.len()
        invariant
            i <= ids.len(),
            ids_distinct(start) ==> ids_distinct(inv@),
            forall|k: Seq<char>| #[trigger]
                owned_in(inv@, k) == if views(ids@.take(i as int)).contains(k) && owned_in(start, k)
                    < minimum {
                    minimum
                } else {
                    owned_in(start, k)
                },
        decreases ids.len() - i,
    {
        let ghost before = inv@;
        raise_to(inv, ids[i].as_str(), minimum);
        proof {
            let prefix = views(ids@.take(i as int));
            let next = views(ids@.take(i + 1));
            assert(next =~= prefix.push(ids@[i as int]@));
            assert forall|k: Seq<char>| #[trigger]
                owned_in(inv@, k) == if next.contains(k) && owned_in(start, k) < minimum {
                    minimum
                } else {
                    owned_in(start, k)
                } by {
                if k == ids@[i as int]@ {
                    assert(next[i as int] == k);
                } else if next.contains(k) {
                    let j = choose|j: int| 0 <= j < next.len() && next[j] == k;
                    assert(prefix[j] == k);
                } else if prefix.contains(k) {
                    let j = choose|j: int| 0 <= j < prefix.len() && prefix[j] == k;
                    assert(next[j] == k);
                }
            }
        }
        i = i + 1;
    }
    assert(ids@.take(ids.len() as int) =~= ids@);
}

/// Counts from a list of ids, one copy per occurrence (the older save layout).
pub fn inventory_from_ids(ids: &Vec<String>) -> (res: Vec<(String, u32)>)
    requires
        ids.len() <= u32::MAX,
    ensures
        forall|k: Seq<char>| #[trigger] owned_in(res@, k) == count_of(views(ids@), k),
        ids_distinct(res@),
{
    let mut res: Vec<(String, u32)> = Vec::new();
    let mut i: usize = 0;
    while i < ids.len()
        invariant
            i <= ids.len() <= u32::MAX,
            ids_distinct(res@),
            forall|k: Seq<char>| #[trigger] owned_in(res@, k) == count_of(views(ids@).take(i as int), k),
        decreases ids.len() - i,
    {
        proof {
            assert(views(ids@).take(i + 1) =~= views(ids@).take(i as int).push(ids@[i as int]@));
            lemma_count_push(views(ids@).take(i as int), ids@[i as int]@, ids@[i as int]@);
            crate::seqs::lemma_count_bound(views(ids@).take(i as int), ids@[i as int]@);
        }
        add_to(&mut res, ids[i].as_str(), 1);
        proof {
            assert forall|k: Seq<char>| #[trigger]
                owned_in(res@, k) == count_of(views(ids@).take(i + 1), k) by {
                lemma_count_push(views(ids@).take(i as int), ids@[i as int]@, k);
            }
        }
        i = i + 1;
    }
    assert(views(ids@).take(ids.len() as int) =~= views(ids@));
    res
}

} // verus!
