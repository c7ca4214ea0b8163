//! Deck-builder faceted filter state and matching.

use vstd::prelude::*;

use crate::data::{CardAlignment, CardSpeed, StoryCardDefinition};
use crate::deck_search::DeckSearchCardContext;
use crate::seqs::{find_index, lemma_find_index_at, lemma_find_index_none};
use crate::text::{eq_ignore_ascii_case, eq_ignore_case, owned};

verus! {

/// Facets selected in the deck builder. An empty facet list does not filter.
#[derive(Clone, Debug)]
pub struct DeckFilterState {
    pub speeds: Vec<CardSpeed>,
    pub alignments: Vec<CardAlignment>,
    pub card_types: Vec<String>,
    pub owned_only: bool,
    pub missing_only: bool,
    pub in_deck_only: bool,
    pub not_in_deck_only: bool,
}

/// `s` with the element at `i` taken out.
pub open spec fn remove_at<T>(s: Seq<T>, i: int) -> Seq<T> {
    s.take(i) + s.skip(i + 1)
}

/// The element equals `x`.
pub open spec fn equals<T>(x: T) -> spec_fn(T) -> bool {
    |y: T| y == x
}

/// The text equals `t` up to ASCII case.
pub open spec fn same_type(t: Seq<char>) -> spec_fn(Seq<char>) -> bool {
    |u: Seq<char>| eq_ignore_case(u, t)
}

/// A filter with no active facet lets every card through.
pub proof fn lemma_inactive_admits_all(filter: DeckFilterState, card: StoryCardDefinition, ctx: DeckSearchCardContext)
    requires
        !filter.active(),
    ensures
        filter.admits(card, ctx),
{
}

/// Each selected facet turns cards away: with some alignment selected, a
/// card whose alignment is not selected is refused, and likewise for speeds
/// and card types (compared up to ASCII case); each ownership or deck toggle
/// refuses the cards it rules out. A card that no selected facet rules out
/// is let through.
pub proof fn lemma_selected_facets_restrict(
    filter: DeckFilterState,
    card: StoryCardDefinition,
    ctx: DeckSearchCardContext,
)
    ensures
        filter.alignments@.len() > 0 && !filter.alignments@.contains(card.alignment) ==> !filter.admits(card, ctx),
        filter.speeds@.len() > 0 && !filter.speeds@.contains(card.speed) ==> !filter.admits(card, ctx),
        filter.card_types@.len() > 0 && (forall|i: int|
            0 <= i < filter.card_types@.len() ==> !eq_ignore_case(#[trigger] filter.card_types@[i]@, card.card_type@))
            ==> !filter.admits(card, ctx),
        filter.owned_only && ctx.owned_count == 0 ==> !filter.admits(card, ctx),
        filter.missing_only && ctx.available_count > 0 ==> !filter.admits(card, ctx),
        filter.in_deck_only && ctx.copies_in_deck == 0 ==> !filter.admits(card, ctx),
        filter.not_in_deck_only && ctx.copies_in_deck > 0 ==> !filter.admits(card, ctx),
        filter.admits(card, ctx) ==> (filter.alignments@.len() == 0 || filter.alignments@.contains(card.alignment)),
        filter.admits(card, ctx) ==> (filter.speeds@.len() == 0 || filter.speeds@.contains(card.speed)),
{
}

/// Selecting one alignment on a filter with none selected lets through
/// only cards of that alignment.
pub proof fn lemma_one_alignment_selected(
    before: DeckFilterState,
    after: DeckFilterState,
    alignment: CardAlignment,
    card: StoryCardDefinition,
    ctx: DeckSearchCardContext,
)
    requires
        before.alignments@.len() == 0,
        after.alignments@ == toggled(before.alignments@, alignment),
    ensures
        after.alignments@ == seq![alignment],
        after.admits(card, ctx) ==> card.alignment == alignment,
{
    lemma_find_index_none(before.alignments@, equals(alignment));
    assert(after.alignments@ =~= seq![alignment]);
    if after.admits(card, ctx) {
        assert(after.alignments@.contains(card.alignment));
        let q = choose|q: int| 0 <= q < after.alignments@.len() && after.alignments@[q] == card.alignment;
        assert(q == 0);
    }
}

/// `s` with the first `x` removed, or with `x` appended when absent.
pub open spec fn toggled<T>(s: Seq<T>, x: T) -> Seq<T> {
    match find_index(s, equals(x)) {
        Some(i) => remove_at(s, i),
        None => s.push(x),
    }
}

/// The card-type list with the first entry equal to `t` up to case removed,
/// or with `t` appended when there is none.
pub open spec fn toggled_type(s: Seq<Seq<char>>, t: Seq<char>) -> Seq<Seq<char>> {
    match find_index(s, same_type(t)) {
        Some(i) => remove_at(s, i),
        None => s.push(t),
    }
}

impl DeckFilterState {
    /// The selected card types as texts.
    pub open spec fn type_views(self) -> Seq<Seq<char>> {
        self.card_types@.map_values(|t: String| t@)
    }

    /// Whether `card` with `ctx` passes every active facet.
    pub open spec fn admits(self, card: StoryCardDefinition, ctx: DeckSearchCardContext) -> bool {
        &&& (self.speeds@.len() == 0 || self.speeds@.contains(card.speed))
        &&& (self.alignments@.len() == 0 || self.alignments@.contains(card.alignment))
        &&& (self.card_types@.len() == 0 || exists|i: int|
            0 <= i < self.card_types@.len() && eq_ignore_case(
                #[trigger] self.card_types@[i]@,
                card.card_type@,
            ))
        &&& !(self.owned_only && ctx.owned_count == 0)
        &&& !(self.missing_only && ctx.available_count > 0)
        &&& !(self.in_deck_only && ctx.copies_in_deck == 0)
        &&& !(self.not_in_deck_only && ctx.copies_in_deck > 0)
    }

    /// Whether any facet is selected.
    pub open spec fn active(self) -> bool {
        ||| self.speeds@.len() > 0
        ||| self.alignments@.len() > 0
        ||| self.card_types@.len() > 0
        ||| self.owned_only
        ||| self.missing_only
        ||| self.in_deck_only
        ||| self.not_in_deck_only
    }

    /// Deselects every facet.
    pub fn clear(&mut self)
        ensures
            final(self).speeds@.len() == 0,
            final(self).alignments@.len() == 0,
            final(self).card_types@.len() == 0,
            !final(self).owned_only,
            !final(self).missing_only,
            !final(self).in_deck_only,
            !final(self).not_in_deck_only,
            !final(self).active(),
            forall|card: StoryCardDefinition, ctx: DeckSearchCardContext| #[trigger] final(self).admits(card, ctx),
    {
        self.speeds.clear();
        self.alignments.clear();
        self.card_types.clear();
        self.owned_only = false;
        self.missing_only = false;
        self.in_deck_only = false;
        self.not_in_deck_only = false;
    }

    /// Whether any facet is selected.
    pub fn has_active_filters(&self) -> (res: bool)
        ensures
            res == self.active(),
    {
        !self.speeds.is_empty() || !self.alignments.is_empty() || !self.card_types.is_empty()
            || self.owned_only || self.missing_only || self.in_deck_only || self.not_in_deck_only
    }

    /// Selects `speed`, or deselects it when selected.
    pub fn toggle_speed(&mut self, speed: CardSpeed)
        ensures
            final(self).speeds@ == toggled(old(self).speeds@, speed),
            final(self).alignments@ == old(self).alignments@,
            final(self).card_types@ == old(self).card_types@,
            final(self).owned_only == old(self).owned_only,
            final(self).missing_only == old(self).missing_only,
            final(self).in_deck_only == old(self).in_deck_only,
            final(self).not_in_deck_only == old(self).not_in_deck_only,
    {
        toggle_speed_entry(&mut self.speeds, speed);
    }

    /// Selects `alignment`, or deselects it when selected.
    pub fn toggle_alignment(&mut self, alignment: CardAlignment)
        ensures
            final(self).alignments@ == toggled(old(self).alignments@, alignment),
            final(self).speeds@ == old(self).speeds@,
            final(self).card_types@ == old(self).card_types@,
            final(self).owned_only == old(self).owned_only,
            final(self).missing_only == old(self).missing_only,
            final(self).in_deck_only == old(self).in_deck_only,
            final(self).not_in_deck_only == old(self).not_in_deck_only,
    {
        toggle_alignment_entry(&mut self.alignments, alignment);
    }

    /// Selects `card_type`, or deselects the first selected type equal to it
    /// up to ASCII case.
    pub fn toggle_card_type(&mut self, card_type: &str)
        ensures
            final(self).type_views() == toggled_type(old(self).type_views(), card_type@),
            final(self).speeds@ == old(self).speeds@,
            final(self).alignments@ == old(self).alignments@,
            final(self).owned_only == old(self).owned_only,
            final(self).missing_only == old(self).missing_only,
            final(self).in_deck_only == old(self).in_deck_only,
            final(self).not_in_deck_only == old(self).not_in_deck_only,
    {
        let ghost views = old(self).type_views();
        let mut i: usize = 0;
        while i < self.card_types.len()
            invariant
                i <= self.card_types.len(),
                *self == *old(self),
                views == self.type_views(),
                forall|j: int| 0 <= j < i ==> !(#[trigger] same_type(card_type@)(views[j])),
            decreases self.card_types.len() - i,
        {
            if eq_ignore_ascii_case(self.card_types[i].as_str(), card_type) {
                proof {
                    assert(views[i as int] == self.card_types@[i as int]@);
                    lemma_find_index_at(views, same_type(card_type@), i as int);
                }
                self.card_types.remove(i);
                assert(self.type_views() =~= remove_at(views, i as int));
                return;
            }
            assert(views[i as int] == self.card_types@[i as int]@);
            i = i + 1;
        }
        proof {
            lemma_find_index_none(views, same_type(card_type@));
        }
        self.card_types.push(owned(card_type));
        assert(self.type_views() =~= views.push(card_type@));
    }

    /// Whether `card` passes every selected facet.
    pub fn matches(&self, card: &StoryCardDefinition, context: DeckSearchCardContext) -> (res: bool)
        ensures
            res == self.admits(*card, context),
    {
        if !self.speeds.is_empty() && !contains_speed(&self.speeds, card.speed) {
            return false;
        }
        if !self.alignments.is_empty() && !contains_alignment(&self.alignments, card.alignment) {
            return false;
        }
        if !self.card_types.is_empty() {
            let mut found = false;
            let mut i: usize = 0;
            while i < self.card_types.len()
                invariant
                    i <= self.card_types.len(),
                    found == exists|j: int|
                        0 <= j < i && eq_ignore_case(#[trigger] self.card_types@[j]@, card.card_type@),
                decreases self.card_types.len() - i,
            {
                if eq_ignore_ascii_case(self.card_types[i].as_str(), card.card_type.as_str()) {
                    found = true;
                }
                i = i + 1;
            }
            if !found {
                return false;
            }
        }
        if self.owned_only && context.owned_count == 0 {
            return false;
        }
        if self.missing_only && context.available_count > 0 {
            return false;
        }
        if self.in_deck_only && context.copies_in_deck == 0 {
            return false;
        }
        if self.not_in_deck_only && context.copies_in_deck > 0 {
            return false;
        }
        true
    }
}

impl Default for DeckFilterState {
    fn default() -> (r: Self)
        ensures
            !r.active(),
    {
        DeckFilterState {
            speeds: Vec::new(),
            alignments: Vec::new(),
            card_types: Vec::new(),
            owned_only: false,
            missing_only: false,
            in_deck_only: false,
            not_in_deck_only: false,
        }
    }
}

/// Whether `speed` is listed.
fn contains_speed(v: &Vec<CardSpeed>, speed: CardSpeed) -> (res: bool)
    ensures
        res == v@.contains(speed),
{
    let mut i: usize = 0;
    while i < v.len()
        invariant
            i <= v.len(),
            forall|j: int| 0 <= j < i ==> v@[j] != speed,
        decreases v.len() - i,
    {
        if v[i] == speed {
            return true;
        }
        i = i + 1;
    }
    false
}

/// Whether `alignment` is listed.
fn contains_alignment(v: &Vec<CardAlignment>, alignment: CardAlignment) -> (res: bool)
    ensures
        res == v@.contains(alignment),
{
    let mut i: usize = 0;
    while i < v.len()
        invariant
            i <= v.len(),
            forall|j: int| 0 <= j < i ==> v@[j] != alignment,
        decreases v.len() - i,
    {
        if v[i] == alignment {
            return true;
        }
        i = i + 1;
    }
    false
}

/// Removes the first `target`, or appends it when absent.
fn toggle_speed_entry(entries: &mut Vec<CardSpeed>, target: CardSpeed)
    ensures
        final(entries)@ == toggled(old(entries)@, target),
{
    let mut i: usize = 0;
    while i < entries.len()
        invariant
            i <= entries.len(),
            entries@ == old(entries)@,
            forall|j: int| 0 <= j < i ==> !(#[trigger] equals(target)(entries@[j])),
        decreases entries.len() - i,
    {
        if entries[i] == target {
            proof {
                lemma_find_index_at(entries@, equals(target), i as int);
            }
            entries.remove(i);
            assert(entries@ =~= remove_at(old(entries)@, i as int));
            return;
        }
        i = i + 1;
    }
    proof {
        lemma_find_index_none(entries@, equals(target));
    }
    entries.push(target);
}

/// Removes the first `target`, or appends it when absent.
fn toggle_alignment_entry(entries: &mut Vec<CardAlignment>, target: CardAlignment)
    ensures
        final(entries)@ == toggled(old(entries)@, target),
{
    let mut i: usize = 0;
    while i < entries.len()
        invariant
            i <= entries.len(),
            entries@ == old(entries)@,
            forall|j: int| 0 <= j < i ==> !(#[trigger] equals(target)(entries@[j])),
        decreases entries.len() - i,
    {
        if entries[i] == target {
            proof {
                lemma_find_index_at(entries@, equals(target), i as int);
            }
            entries.remove(i);
            assert(entries@ =~= remove_at(old(entries)@, i as int));
            return;
        }
        i = i + 1;
    }
    proof {
        lemma_find_index_none(entries@, equals(target));
    }
    entries.push(target);
}

/// Toggling a value twice leaves the facet as it was, when the value is not
/// selected at first.
pub proof fn lemma_toggle_twice_restores<T>(s: Seq<T>, x: T)
    requires
        !s.contains(x),
    ensures
        toggled(toggled(s, x), x) == s,
{
    assert forall|j: int| 0 <= j < s.len() implies !(#[trigger] equals(x)(s[j])) by {
        if s[j] == x {
            assert(s.contains(x));
        }
    }
    lemma_find_index_none(s, equals(x));
    let t = s.push(x);
    assert forall|j: int| 0 <= j < s.len() implies !(#[trigger] equals(x)(t[j])) by {
        assert(t[j] == s[j]);
    }
    lemma_find_index_at(t, equals(x), s.len() as int);
    assert(remove_at(t, s.len() as int) =~= s);
}

/// Toggling a value flips whether it is selected, when it is listed at most once.
pub proof fn lemma_toggle_flips_membership<T>(s: Seq<T>, x: T)
    requires
        forall|i: int, j: int| 0 <= i < j < s.len() && s[i] == x ==> s[j] != x,
    ensures
        toggled(s, x).contains(x) == !s.contains(x),
{
    crate::seqs::lemma_find_index(s, equals(x));
    match find_index(s, equals(x)) {
        Some(i) => {
            let r = remove_at(s, i);
            if r.contains(x) {
                let k = choose|k: int| 0 <= k < r.len() && r[k] == x;
                if k < i {
                    assert(r[k] == s[k]);
                } else {
                    assert(r[k] == s[k + 1]);
                }
            }
            assert(s[i] == x);
        },
        None => {
            assert(s.push(x)[s.len() as int] == x);
            if s.contains(x) {
                let k = choose|k: int| 0 <= k < s.len() && s[k] == x;
                assert(!equals(x)(s[k]));
            }
        },
    }
}

} // verus!
