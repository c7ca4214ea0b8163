//! Versioned deck and roster preset save data.

use vstd::prelude::*;

use crate::collection::{CollectionCardKind, CollectionSave};
use crate::data::{DeckRules, StarterLoadout};
use crate::deck_code::ImportedDeck;
use crate::seqs::{count_of, copy_slice, copy_strings, count_text, find_first, find_index,
    lemma_count_bound, lemma_count_push, lemma_find_index, lemma_find_index_at, lemma_find_index_none,
    lemma_pigeonhole, lemma_stable_sort_sorted, preceded_by, stable_sort, views, is_text, position_of_text};
use crate::text::{append_char, append_text, decimal, decimal_string, eq_ignore_ascii_case,
    eq_ignore_case, lemma_decimal_injective, lemma_decimal_value, lemma_lower_concat, lower_seq,
    owned, text_eq, trim, trim_seq};
use crate::deck_browser::{compare_text, lemma_text_less_asym, lemma_text_less_trans, text_order, Order};
use crate::timestamp::current_unix_timestamp;

verus! {

/// A support deck with the rosters it is played with.
#[derive(Clone, Debug)]
pub struct DeckPreset {
    pub id: String,
    pub name: String,
    pub source_template_id: Option<String>,
    pub notes: String,
    pub archetype_tags: Vec<String>,
    pub story_cards: Vec<String>,
    pub magical_girl_roster: Vec<String>,
    pub baddie_roster: Vec<String>,
    pub created_at_unix: i64,
    pub updated_at_unix: i64,
    pub recent_story_cards: Vec<String>,
}

/// The content of a `DeckPreset`, every text by its characters.
pub struct DeckPresetView {
    pub id: Seq<char>,
    pub name: Seq<char>,
    pub source_template_id: Option<Seq<char>>,
    pub notes: Seq<char>,
    pub archetype_tags: Seq<Seq<char>>,
    pub story_cards: Seq<Seq<char>>,
    pub magical_girl_roster: Seq<Seq<char>>,
    pub baddie_roster: Seq<Seq<char>>,
    pub created_at_unix: i64,
    pub updated_at_unix: i64,
    pub recent_story_cards: Seq<Seq<char>>,
}

/// The characters of an optional text.
pub open spec fn opt_view(o: Option<String>) -> Option<Seq<char>> {
    match o {
        Some(s) => Some(s@),
        None => None,
    }
}

impl View for DeckPreset {
    type V = DeckPresetView;

    open spec fn view(&self) -> DeckPresetView {
        DeckPresetView {
            id: self.id@,
            name: self.name@,
            source_template_id: opt_view(self.source_template_id),
            notes: self.notes@,
            archetype_tags: views(self.archetype_tags@),
            story_cards: views(self.story_cards@),
            magical_girl_roster: views(self.magical_girl_roster@),
            baddie_roster: views(self.baddie_roster@),
            created_at_unix: self.created_at_unix,
            updated_at_unix: self.updated_at_unix,
            recent_story_cards: views(self.recent_story_cards@),
        }
    }
}

/// Copies an optional text.
fn copy_opt(o: &Option<String>) -> (res: Option<String>)
    ensures
        opt_view(res) == opt_view(*o),
{
    match o {
        Some(s) => Some(s.clone()),
        None => None,
    }
}

impl DeckPreset {
    /// A copy with the same content.
    pub fn copy(&self) -> (res: DeckPreset)
        ensures
            res@ == self@,
    {
        DeckPreset {
            id: self.id.clone(),
            name: self.name.clone(),
            source_template_id: copy_opt(&self.source_template_id),
            notes: self.notes.clone(),
            archetype_tags: copy_strings(&self.archetype_tags),
            story_cards: copy_strings(&self.story_cards),
            magical_girl_roster: copy_strings(&self.magical_girl_roster),
            baddie_roster: copy_strings(&self.baddie_roster),
            created_at_unix: self.created_at_unix,
            updated_at_unix: self.updated_at_unix,
            recent_story_cards: copy_strings(&self.recent_story_cards),
        }
    }
}

impl Default for DeckPreset {
    fn default() -> (r: Self)
        ensures
            r@.id.len() == 0,
            r@.name.len() == 0,
            r@.source_template_id is None,
            r@.notes.len() == 0,
            r@.archetype_tags.len() == 0,
            r@.story_cards.len() == 0,
            r@.magical_girl_roster.len() == 0,
            r@.baddie_roster.len() == 0,
            r@.created_at_unix == 0,
            r@.updated_at_unix == 0,
            r@.recent_story_cards.len() == 0,
    {
        DeckPreset {
            id: String::new(),
            name: String::new(),
            source_template_id: None,
            notes: String::new(),
            archetype_tags: Vec::new(),
            story_cards: Vec::new(),
            magical_girl_roster: Vec::new(),
            baddie_roster: Vec::new(),
            created_at_unix: 0,
            updated_at_unix: 0,
            recent_story_cards: Vec::new(),
        }
    }
}

/// The saved decks: the support decks, which one is selected, and the
/// undo snapshot of the last edit.
#[derive(Clone, Debug)]
pub struct DecksSave {
    pub version: u32,
    pub support_decks: Vec<DeckPreset>,
    pub selected_support_deck_id: Option<String>,
    pub roster_presets: Vec<String>,
    legacy_active_support_deck_index: usize,
    undo_snapshot: Option<DeckPreset>,
}

/// The content of a `DecksSave`.
pub struct DecksSaveView {
    pub version: u32,
    pub decks: Seq<DeckPresetView>,
    pub selected: Option<Seq<char>>,
    pub roster_presets: Seq<Seq<char>>,
    pub legacy_index: usize,
    pub undo: Option<DeckPresetView>,
}

/// The contents of a list of decks.
pub open spec fn deck_views(v: Seq<DeckPreset>) -> Seq<DeckPresetView> {
    v.map_values(|d: DeckPreset| d@)
}

impl View for DecksSave {
    type V = DecksSaveView;

    closed spec fn view(&self) -> DecksSaveView {
        DecksSaveView {
            version: self.version,
            decks: deck_views(self.support_decks@),
            selected: opt_view(self.selected_support_deck_id),
            roster_presets: views(self.roster_presets@),
            legacy_index: self.legacy_active_support_deck_index,
            undo: match self.undo_snapshot {
                Some(d) => Some(d@),
                None => None,
            },
        }
    }
}

// ---------------------------------------------------------------------------
// Specifications
// ---------------------------------------------------------------------------

/// The deck has the id `id`.
pub open spec fn deck_has_id(id: Seq<char>) -> spec_fn(DeckPresetView) -> bool {
    |d: DeckPresetView| d.id == id
}

/// Position of the selected deck: the first deck with the selected id.
pub open spec fn selected_index(v: DecksSaveView) -> Option<int> {
    match v.selected {
        Some(id) => find_index(v.decks, deck_has_id(id)),
        None => None,
    }
}

/// The selected deck, if the selected id names one.
pub open spec fn selected_deck(v: DecksSaveView) -> Option<DeckPresetView> {
    match selected_index(v) {
        Some(i) => Some(v.decks[i]),
        None => None,
    }
}

/// `s` without any `x`.
pub open spec fn without(s: Seq<Seq<char>>, x: Seq<char>) -> Seq<Seq<char>>
    decreases s.len(),
{
    if s.len() == 0 {
        s
    } else if s.last() == x {
        without(s.drop_last(), x)
    } else {
        without(s.drop_last(), x).push(s.last())
    }
}

/// The recent-card list after touching `card`: moved (or added) to the end,
/// keeping the five most recent.
pub open spec fn pushed_recent(recent: Seq<Seq<char>>, card: Seq<char>) -> Seq<Seq<char>> {
    let r = without(recent, card).push(card);
    if r.len() > 5 {
        r.drop_first()
    } else {
        r
    }
}

/// Tags trimmed, with empty ones and case-insensitive repeats dropped.
pub open spec fn normalized_tags_of(tags: Seq<Seq<char>>) -> Seq<Seq<char>>
    decreases tags.len(),
{
    if tags.len() == 0 {
        tags
    } else {
        let prev = normalized_tags_of(tags.drop_last());
        let t = trim_seq(tags.last());
        if t.len() == 0 || (exists|i: int| 0 <= i < prev.len() && eq_ignore_case(#[trigger] prev[i], t)) {
            prev
        } else {
            prev.push(t)
        }
    }
}

/// `s` with `x` appended unless already present.
pub open spec fn push_unique(s: Seq<Seq<char>>, x: Seq<char>) -> Seq<Seq<char>> {
    if s.contains(x) {
        s
    } else {
        s.push(x)
    }
}

/// `s` with each of `xs` appended in order unless already present.
pub open spec fn push_unique_all(s: Seq<Seq<char>>, xs: Seq<Seq<char>>) -> Seq<Seq<char>>
    decreases xs.len(),
{
    if xs.len() == 0 {
        s
    } else {
        push_unique(push_unique_all(s, xs.drop_last()), xs.last())
    }
}

/// `s` cut to at most `n` elements.
pub open spec fn truncated<T>(s: Seq<T>, n: int) -> Seq<T> {
    if s.len() > n {
        s.take(n)
    } else {
        s
    }
}

/// The roster of a starter: its main, then its supports, then the fallback
/// ids, without repeats and as long as the fallback; the fallback itself
/// when that falls short.
pub open spec fn template_roster(main: Seq<char>, supports: Seq<Seq<char>>, fallback: Seq<Seq<char>>) -> Seq<
    Seq<char>,
> {
    let r = truncated(push_unique_all(push_unique_all(seq![main], supports), fallback), fallback.len() as int);
    if r.len() == fallback.len() {
        r
    } else {
        fallback
    }
}

/// A saved roster repaired against the known ids: kept when it has the
/// right size and only known ids, replaced by the known ids otherwise.
pub open spec fn filled_roster(roster: Seq<Seq<char>>, fallback: Seq<Seq<char>>) -> Seq<Seq<char>> {
    if roster.len() == fallback.len() && (forall|i: int| 0 <= i < roster.len() ==> fallback.contains(#[trigger] roster[i])) {
        roster
    } else {
        fallback
    }
}

/// The last (at most) five elements of `s`, in order.
pub open spec fn last_five(s: Seq<Seq<char>>) -> Seq<Seq<char>> {
    if s.len() > 5 {
        s.skip(s.len() - 5)
    } else {
        s
    }
}

/// The first (at most) five elements of `s`.
pub open spec fn first_five(s: Seq<Seq<char>>) -> Seq<Seq<char>> {
    truncated(s, 5)
}

/// The id a new deck gets when the number `n` is tried.
pub open spec fn numbered_deck_id(n: nat) -> Seq<char> {
    "deck_"@ + decimal(n)
}

/// Some deck has the id `id`.
pub open spec fn id_used(decks: Seq<DeckPresetView>, id: Seq<char>) -> bool {
    exists|i: int| 0 <= i < decks.len() && (#[trigger] decks[i]).id == id
}

/// `id` is the id a new deck gets: `deck_N` for the smallest `N` above the
/// deck count that no deck uses.
pub open spec fn is_next_deck_id(decks: Seq<DeckPresetView>, id: Seq<char>) -> bool {
    exists|n: nat|
        n >= decks.len() + 1 && id == numbered_deck_id(n) && !id_used(decks, id) && (forall|m: nat|
            decks.len() + 1 <= m < n ==> id_used(decks, #[trigger] numbered_deck_id(m)))
}

/// A deck other than the one with the id `ignored` has a name equal to
/// `name` up to ASCII case.
pub open spec fn name_taken(decks: Seq<DeckPresetView>, name: Seq<char>, ignored: Option<Seq<char>>) -> bool {
    exists|i: int|
        0 <= i < decks.len() && ignored != Some((#[trigger] decks[i]).id) && eq_ignore_case(
            decks[i].name,
            name,
        )
}

/// The name tried with the suffix number `n`.
pub open spec fn suffixed_name(base: Seq<char>, n: nat) -> Seq<char> {
    base.push(' ') + decimal(n)
}

/// `name` is what `desired` becomes as a deck name: trimmed, `Deck` when
/// empty, and otherwise the first of `base`, `base 2`, `base 3`, ... that no
/// other deck uses (ignoring ASCII case).
pub open spec fn is_unique_name(
    decks: Seq<DeckPresetView>,
    desired: Seq<char>,
    ignored: Option<Seq<char>>,
    name: Seq<char>,
) -> bool {
    let base = trim_seq(desired);
    if base.len() == 0 {
        name == "Deck"@
    } else if !name_taken(decks, base, ignored) {
        name == base
    } else {
        exists|n: nat|
            n >= 2 && name == suffixed_name(base, n) && !name_taken(decks, name, ignored) && (forall|m: nat|
                2 <= m < n ==> name_taken(decks, #[trigger] suffixed_name(base, m), ignored))
    }
}

/// `b` is `a` with only `updated_at_unix` possibly different.
pub open spec fn touched(a: DeckPresetView, b: DeckPresetView) -> bool {
    b == DeckPresetView { updated_at_unix: b.updated_at_unix, ..a }
}

/// `after` is `before` with the deck at `i` replaced and the undo snapshot
/// set to the deck as it was.
pub open spec fn edited_at(before: DecksSaveView, after: DecksSaveView, i: int) -> bool {
    &&& 0 <= i < before.decks.len()
    &&& after == DecksSaveView {
        decks: before.decks.update(i, after.decks[i]),
        undo: Some(before.decks[i]),
        ..before
    }
}

/// Whether undoing puts a deck back: there is a snapshot and a deck with its id.
pub open spec fn undo_restores(v: DecksSaveView) -> bool {
    match v.undo {
        Some(snap) => find_index(v.decks, deck_has_id(snap.id)) is Some,
        None => false,
    }
}

/// The save after undoing: the snapshot replaces the first deck with its id
/// and that deck is selected; the snapshot is used up either way.
pub open spec fn after_undo(v: DecksSaveView) -> DecksSaveView {
    match v.undo {
        None => v,
        Some(snap) => match find_index(v.decks, deck_has_id(snap.id)) {
            None => DecksSaveView { undo: None, ..v },
            Some(i) => DecksSaveView { decks: v.decks.update(i, snap), selected: Some(snap.id), undo: None, ..v },
        },
    }
}

/// Undoing right after an edit of a deck that keeps its id gives back the
/// save as it was before the edit, with that deck selected and nothing left
/// to undo.
pub proof fn lemma_undo_restores_edit(before: DecksSaveView, after: DecksSaveView, i: int)
    requires
        edited_at(before, after, i),
        after.decks[i].id == before.decks[i].id,
        find_index(before.decks, deck_has_id(before.decks[i].id)) == Some(i),
    ensures
        undo_restores(after),
        after_undo(after) == (DecksSaveView { selected: Some(before.decks[i].id), undo: None, ..before }),
{
    let id = before.decks[i].id;
    lemma_find_index(before.decks, deck_has_id(id));
    assert forall|j: int| 0 <= j < i implies !(#[trigger] deck_has_id(id)(after.decks[j])) by {
        assert(after.decks[j] == before.decks[j]);
    }
    lemma_find_index_at(after.decks, deck_has_id(id), i);
    assert(after.decks.update(i, before.decks[i]) =~= before.decks);
}

/// `after` is `before` with the selected deck edited in place, keeping its
/// id and stamped with a change time, and the deck as it was kept for undo.
pub open spec fn selected_deck_edited(before: DecksSaveView, after: DecksSaveView) -> bool {
    selected_index(before) matches Some(i) && edited_at(before, after, i) && after.decks[i].id
        == before.decks[i].id && after.decks[i].updated_at_unix >= 0
}

/// Undoing right after any edit of the selected deck (adding or removing a
/// card, renaming, setting a roster slot, updating the metadata, resetting
/// to the starter) gives back the decks and selection as they were before
/// the edit, with nothing left to undo; a further undo does nothing.
pub proof fn lemma_undo_after_edit(before: DecksSaveView, after: DecksSaveView)
    requires
        selected_deck_edited(before, after),
    ensures
        undo_restores(after),
        after_undo(after) == (DecksSaveView { undo: None, ..before }),
        !undo_restores(after_undo(after)),
        after_undo(after_undo(after)) == after_undo(after),
{
    let i = selected_index(before)->0;
    lemma_find_index(before.decks, deck_has_id(before.selected->0));
    lemma_undo_restores_edit(before, after, i);
}

/// Whether a copy of `card` may be added to the selected deck.
pub open spec fn can_add(v: DecksSaveView, card: Seq<char>, rules: DeckRules, collection: CollectionSave) -> bool {
    match selected_deck(v) {
        Some(d) => {
            let copies = count_of(d.story_cards, card);
            &&& d.story_cards.len() < rules.support_deck_size
            &&& copies < rules.max_copies_per_story_card
            &&& collection.count(CollectionCardKind::StoryCard, card) > (copies as u32)
        },
        None => false,
    }
}

/// A card can be added only to a selected deck that holds fewer story cards
/// than the support deck size and fewer copies of the card than the copy
/// limit, while the collection owns more copies than the deck holds.
pub proof fn lemma_add_needs_room(v: DecksSaveView, card: Seq<char>, rules: DeckRules, collection: CollectionSave)
    requires
        can_add(v, card, rules, collection),
    ensures
        selected_deck(v) is Some,
        selected_deck(v)->0.story_cards.len() < rules.support_deck_size,
        count_of(selected_deck(v)->0.story_cards, card) < rules.max_copies_per_story_card,
        collection.count(CollectionCardKind::StoryCard, card) > 0,
{
}

/// After a successful add the selected deck is the same deck with the card
/// appended, and it keeps within the rules: at most the support deck size
/// of story cards, at most the copy limit of the card, and no more copies
/// of it than the collection owns.
pub proof fn lemma_add_stays_within_rules(
    before: DecksSaveView,
    after: DecksSaveView,
    card: Seq<char>,
    rules: DeckRules,
    collection: CollectionSave,
)
    requires
        can_add(before, card, rules, collection),
        card_added(before, after, card),
    ensures
        selected_index(after) == selected_index(before),
        selected_deck(after) is Some,
        selected_deck(after)->0.story_cards == selected_deck(before)->0.story_cards.push(card),
        selected_deck(after)->0.story_cards.len() <= rules.support_deck_size,
        count_of(selected_deck(after)->0.story_cards, card) <= rules.max_copies_per_story_card,
        selected_deck(before)->0.story_cards.len() < u32::MAX ==> count_of(selected_deck(after)->0.story_cards, card)
            <= collection.count(CollectionCardKind::StoryCard, card),
{
    let id = before.selected->0;
    let p = deck_has_id(id);
    let i = selected_index(before)->0;
    lemma_find_index(before.decks, p);
    assert(after.decks[i].id == before.decks[i].id);
    assert forall|j: int| 0 <= j < i implies !p(#[trigger] after.decks[j]) by {
        assert(after.decks[j] == before.decks[j]);
    }
    lemma_find_index_at(after.decks, p, i);
    let d = before.decks[i];
    lemma_count_push(d.story_cards, card, card);
    lemma_count_bound(d.story_cards, card);
}

/// The deck a starter becomes, given its id, name and creation time.
pub open spec fn starter_deck(
    starter: StarterLoadout,
    id: Seq<char>,
    name: Seq<char>,
    magical_girl_ids: Seq<Seq<char>>,
    baddie_ids: Seq<Seq<char>>,
    now: i64,
) -> DeckPresetView {
    DeckPresetView {
        id: id,
        name: name,
        source_template_id: Some(starter.id@),
        notes: starter.description@,
        archetype_tags: normalized_tags_of(seq![starter.playstyle@]),
        story_cards: views(starter.support_deck@),
        magical_girl_roster: template_roster(
            starter.magical_girl_main@,
            views(starter.magical_girl_supports@),
            magical_girl_ids,
        ),
        baddie_roster: template_roster(starter.prime_baddie@, views(starter.baddie_supports@), baddie_ids),
        created_at_unix: now,
        updated_at_unix: now,
        recent_story_cards: first_five(views(starter.support_deck@)),
    }
}

/// `b` is `a` with times filled in, tags normalized, and the recent-card
/// list kept to five entries (seeded from the last cards when empty).
pub open spec fn metadata_ensured(a: DeckPresetView, b: DeckPresetView) -> bool {
    &&& b == DeckPresetView {
        created_at_unix: b.created_at_unix,
        updated_at_unix: b.updated_at_unix,
        archetype_tags: normalized_tags_of(a.archetype_tags),
        recent_story_cards: if a.recent_story_cards.len() == 0 {
            last_five(a.story_cards)
        } else {
            truncated(a.recent_story_cards, 5)
        },
        ..a
    }
    &&& a.created_at_unix > 0 ==> b.created_at_unix == a.created_at_unix
    &&& a.created_at_unix <= 0 ==> b.created_at_unix >= 0
    &&& a.updated_at_unix > 0 ==> b.updated_at_unix == a.updated_at_unix
    &&& a.updated_at_unix <= 0 ==> b.updated_at_unix == b.created_at_unix
}

/// The selected id after repairing a save: kept when a deck has it,
/// otherwise the id of the deck at the legacy index, else the first deck's.
pub open spec fn resolved_selection(v: DecksSaveView) -> Option<Seq<char>> {
    if v.selected is Some && id_used(v.decks, v.selected->0) {
        v.selected
    } else if v.legacy_index < v.decks.len() {
        Some(v.decks[v.legacy_index as int].id)
    } else if v.decks.len() > 0 {
        Some(v.decks[0].id)
    } else {
        None
    }
}

/// `b` is `a` with its rosters repaired against the known ids and its
/// metadata filled in.
pub open spec fn repaired(
    a: DeckPresetView,
    b: DeckPresetView,
    magical_girl_ids: Seq<Seq<char>>,
    baddie_ids: Seq<Seq<char>>,
) -> bool {
    metadata_ensured(
        DeckPresetView {
            magical_girl_roster: filled_roster(a.magical_girl_roster, magical_girl_ids),
            baddie_roster: filled_roster(a.baddie_roster, baddie_ids),
            ..a
        },
        b,
    )
}

/// `after` is `before` with every deck repaired against the known ids, the
/// selection resolved and the version raised to at least 3.
pub open spec fn save_repaired(
    before: DecksSaveView,
    after: DecksSaveView,
    magical_girl_ids: Seq<Seq<char>>,
    baddie_ids: Seq<Seq<char>>,
) -> bool {
    &&& after.decks.len() == before.decks.len()
    &&& forall|i: int|
        0 <= i < before.decks.len() ==> repaired(before.decks[i], #[trigger] after.decks[i], magical_girl_ids, baddie_ids)
    &&& after.selected == resolved_selection(before)
    &&& after.version == if before.version > 3 {
        before.version
    } else {
        3
    }
    &&& after.roster_presets == before.roster_presets
    &&& after.legacy_index == before.legacy_index
    &&& after.undo == before.undo
}

/// Every tag is trimmed and non-empty, and no tag equals an earlier one up
/// to ASCII case.
pub open spec fn tags_normal(tags: Seq<Seq<char>>) -> bool {
    forall|j: int|
        0 <= j < tags.len() ==> trim_seq(#[trigger] tags[j]) == tags[j] && tags[j].len() > 0 && (forall|i: int|
            0 <= i < j ==> !eq_ignore_case(#[trigger] tags[i], tags[j]))
}

proof fn lemma_normalized_tags_normal(tags: Seq<Seq<char>>)
    ensures
        tags_normal(normalized_tags_of(tags)),
    decreases tags.len(),
{
    if tags.len() > 0 {
        lemma_normalized_tags_normal(tags.drop_last());
        crate::text::lemma_trim_idempotent(tags.last());
    }
}

proof fn lemma_normal_tags_fixed(tags: Seq<Seq<char>>)
    requires
        tags_normal(tags),
    ensures
        normalized_tags_of(tags) == tags,
    decreases tags.len(),
{
    if tags.len() > 0 {
        let prev = tags.drop_last();
        assert(tags_normal(prev)) by {
            assert forall|j: int| 0 <= j < prev.len() implies trim_seq(#[trigger] prev[j]) == prev[j] && prev[j].len()
                > 0 && (forall|i: int| 0 <= i < j ==> !eq_ignore_case(#[trigger] prev[i], prev[j])) by {
                assert(prev[j] == tags[j]);
                assert forall|i: int| 0 <= i < j implies !eq_ignore_case(#[trigger] prev[i], prev[j]) by {
                    assert(prev[i] == tags[i]);
                }
            }
        }
        lemma_normal_tags_fixed(prev);
        let t = tags.last();
        assert(trim_seq(tags[tags.len() - 1]) == tags[tags.len() - 1]);
        assert(!(exists|i: int| 0 <= i < prev.len() && eq_ignore_case(#[trigger] prev[i], t))) by {
            assert forall|i: int| 0 <= i < prev.len() implies !eq_ignore_case(#[trigger] prev[i], t) by {
                assert(prev[i] == tags[i]);
                assert(!eq_ignore_case(tags[i], tags[tags.len() - 1]));
            }
        }
        assert(prev.push(t) =~= tags);
    }
}

/// Normalizing tags twice gives what normalizing once gives.
pub proof fn lemma_normalized_tags_idempotent(tags: Seq<Seq<char>>)
    ensures
        normalized_tags_of(normalized_tags_of(tags)) == normalized_tags_of(tags),
{
    lemma_normalized_tags_normal(tags);
    lemma_normal_tags_fixed(normalized_tags_of(tags));
}

/// Repairing a repaired deck changes nothing, when its times are set.
proof fn lemma_repaired_twice(a: DeckPresetView, b: DeckPresetView, c: DeckPresetView, m: Seq<Seq<char>>, bd: Seq<
    Seq<char>,
>)
    requires
        repaired(a, b, m, bd),
        repaired(b, c, m, bd),
        b.created_at_unix > 0,
        b.updated_at_unix > 0,
    ensures
        c == b,
{
    lemma_normalized_tags_idempotent(a.archetype_tags);
    assert(filled_roster(b.magical_girl_roster, m) == b.magical_girl_roster);
    assert(filled_roster(b.baddie_roster, bd) == b.baddie_roster);
    let x = DeckPresetView {
        magical_girl_roster: filled_roster(b.magical_girl_roster, m),
        baddie_roster: filled_roster(b.baddie_roster, bd),
        ..b
    };
    assert(x == b);
    if b.recent_story_cards.len() == 0 {
        assert(last_five(b.story_cards) =~= b.recent_story_cards);
    } else {
        assert(truncated(b.recent_story_cards, 5) == b.recent_story_cards);
    }
}

/// Repairing a save that was just repaired changes nothing, when every deck
/// had its times set by the first repair.
pub proof fn lemma_repair_idempotent(
    v0: DecksSaveView,
    v1: DecksSaveView,
    v2: DecksSaveView,
    magical_girl_ids: Seq<Seq<char>>,
    baddie_ids: Seq<Seq<char>>,
)
    requires
        save_repaired(v0, v1, magical_girl_ids, baddie_ids),
        save_repaired(v1, v2, magical_girl_ids, baddie_ids),
        forall|i: int|
            0 <= i < v1.decks.len() ==> (#[trigger] v1.decks[i]).created_at_unix > 0 && v1.decks[i].updated_at_unix > 0,
    ensures
        v2 == v1,
{
    assert forall|i: int| 0 <= i < v1.decks.len() implies #[trigger] v2.decks[i] == v1.decks[i] by {
        lemma_repaired_twice(v0.decks[i], v1.decks[i], v2.decks[i], magical_girl_ids, baddie_ids);
    }
    assert(v2.decks =~= v1.decks);
    assert forall|i: int| 0 <= i < v1.decks.len() implies #[trigger] v1.decks[i].id == v0.decks[i].id by {
        assert(repaired(v0.decks[i], v1.decks[i], magical_girl_ids, baddie_ids));
    }
    if v1.selected is Some {
        let id = v1.selected->0;
        if v0.selected is Some && id_used(v0.decks, v0.selected->0) {
            let k = choose|k: int| 0 <= k < v0.decks.len() && (#[trigger] v0.decks[k]).id == v0.selected->0;
            assert(v1.decks[k].id == id);
        } else if v0.legacy_index < v0.decks.len() {
            assert(v1.decks[v0.legacy_index as int].id == id);
        } else {
            assert(v1.decks[0].id == id);
        }
        assert(id_used(v1.decks, id));
    } else {
        assert(v1.decks.len() == 0);
    }
}

/// `after` is `before` with one deck appended, selected, and the undo
/// snapshot cleared.
pub open spec fn appended(before: DecksSaveView, after: DecksSaveView) -> bool {
    &&& after.decks.len() == before.decks.len() + 1
    &&& after == DecksSaveView {
        decks: before.decks.push(after.decks.last()),
        selected: Some(after.decks.last().id),
        undo: None,
        ..before
    }
}

/// The first deck made from the starter with the id `starter_id`.
pub open spec fn template_deck_index(decks: Seq<DeckPresetView>, starter_id: Seq<char>) -> Option<int> {
    find_index(decks, made_from(starter_id))
}

/// The deck was made from the starter with the id `starter_id`.
pub open spec fn made_from(starter_id: Seq<char>) -> spec_fn(DeckPresetView) -> bool {
    |d: DeckPresetView| d.source_template_id == Some(starter_id)
}

/// `after` is `before` with a copy of `card` added to the selected deck,
/// marked as most recent, and the deck as it was kept for undo.
pub open spec fn card_added(before: DecksSaveView, after: DecksSaveView, card: Seq<char>) -> bool {
    match selected_index(before) {
        Some(i) => {
            let d = before.decks[i];
            &&& edited_at(before, after, i)
            &&& touched(
                DeckPresetView {
                    story_cards: d.story_cards.push(card),
                    recent_story_cards: pushed_recent(d.recent_story_cards, card),
                    ..d
                },
                after.decks[i],
            )
        },
        None => false,
    }
}

/// A newly made deck: no template, no notes, tags or cards, the given rosters.
pub open spec fn is_empty_deck(
    d: DeckPresetView,
    id: Seq<char>,
    magical_girl_ids: Seq<Seq<char>>,
    baddie_ids: Seq<Seq<char>>,
) -> bool {
    d == DeckPresetView {
        id: id,
        name: d.name,
        source_template_id: None,
        notes: Seq::empty(),
        archetype_tags: Seq::empty(),
        story_cards: Seq::empty(),
        magical_girl_roster: magical_girl_ids,
        baddie_roster: baddie_ids,
        created_at_unix: d.created_at_unix,
        updated_at_unix: d.created_at_unix,
        recent_story_cards: Seq::empty(),
    }
}

/// The name asked for when copying a deck called `name`.
pub open spec fn copy_name(name: Seq<char>, copy_suffix: Seq<char>) -> Seq<char> {
    name.push(' ') + copy_suffix
}

/// The roster after putting `id` in `slot`: a character already in the
/// roster swaps places with the slot's, any other replaces it.
pub open spec fn roster_with_slot(r: Seq<Seq<char>>, slot: int, id: Seq<char>) -> Seq<Seq<char>> {
    match find_index(r, is_text(id)) {
        Some(e) => r.update(slot, r[e]).update(e, r[slot]),
        None => r.update(slot, id),
    }
}

/// `x` goes strictly before `y` among recently changed decks: changed
/// later, or at the same time with a smaller id.
pub open spec fn recency_before(x: (Seq<char>, i64), y: (Seq<char>, i64)) -> bool {
    x.1 > y.1 || (x.1 == y.1 && text_order(x.0, y.0) == Order::Less)
}

/// `y` goes after `x`.
pub open spec fn goes_after(x: (Seq<char>, i64)) -> spec_fn((Seq<char>, i64)) -> bool {
    |y: (Seq<char>, i64)| recency_before(x, y)
}

/// Where `x` goes in the sorted list: before the first entry it precedes.
pub open spec fn insert_position(sorted: Seq<(Seq<char>, i64)>, x: (Seq<char>, i64)) -> int {
    match find_index(sorted, goes_after(x)) {
        Some(j) => j,
        None => sorted.len() as int,
    }
}

/// `s` sorted by recency, equal entries kept in their order (a stable sort).
pub open spec fn sort_by_recency(s: Seq<(Seq<char>, i64)>) -> Seq<(Seq<char>, i64)>
    decreases s.len(),
{
    if s.len() == 0 {
        s
    } else {
        let sorted = sort_by_recency(s.drop_last());
        sorted.insert(insert_position(sorted, s.last()), s.last())
    }
}

/// The ids of the `limit` most recently changed decks, newest first.
pub open spec fn recent_deck_ids(decks: Seq<DeckPresetView>, limit: int) -> Seq<Seq<char>> {
    truncated(
        sort_by_recency(decks.map_values(|d: DeckPresetView| (d.id, d.updated_at_unix))),
        limit,
    ).map_values(|p: (Seq<char>, i64)| p.0)
}

/// The recency order as a relation.
pub open spec fn recency_order() -> spec_fn((Seq<char>, i64), (Seq<char>, i64)) -> bool {
    |x: (Seq<char>, i64), y: (Seq<char>, i64)| recency_before(x, y)
}

proof fn lemma_sort_by_recency_is_stable_sort(s: Seq<(Seq<char>, i64)>)
    ensures
        sort_by_recency(s) == stable_sort(s, recency_order()),
    decreases s.len(),
{
    if s.len() > 0 {
        lemma_sort_by_recency_is_stable_sort(s.drop_last());
        assert(goes_after(s.last()) =~= preceded_by(recency_order(), s.last()));
    }
}

/// Recently changed decks come newest first: along the sorted list the
/// change times never rise, and decks changed at the same time come in
/// text order of their ids; the listed ids are those of the first `limit`
/// entries.
pub proof fn lemma_recent_decks_newest_first(decks: Seq<DeckPresetView>, limit: int)
    requires
        limit >= 0,
    ensures
        ({
            let sorted = sort_by_recency(decks.map_values(|d: DeckPresetView| (d.id, d.updated_at_unix)));
            let ids = recent_deck_ids(decks, limit);
            &&& sorted.len() == decks.len()
            &&& ids.len() == if decks.len() > limit { limit } else { decks.len() as int }
            &&& forall|k: int| 0 <= k < ids.len() ==> #[trigger] ids[k] == sorted[k].0
            &&& forall|a: int, b: int| 0 <= a < b < sorted.len() ==> (#[trigger] sorted[a]).1 >= (#[trigger] sorted[b]).1
            &&& forall|a: int, b: int|
                0 <= a < b < sorted.len() && sorted[a].1 == sorted[b].1 ==> text_order(
                    (#[trigger] sorted[b]).0,
                    (#[trigger] sorted[a]).0,
                ) != Order::Less
        }),
{
    let input = decks.map_values(|d: DeckPresetView| (d.id, d.updated_at_unix));
    let sorted = sort_by_recency(input);
    lemma_sort_by_recency_is_stable_sort(input);
    assert forall|x: (Seq<char>, i64), y: (Seq<char>, i64), z: (Seq<char>, i64)| #[trigger] recency_order()(x, y)
        && #[trigger] recency_order()(y, z) implies recency_order()(x, z) by {
        if x.1 == y.1 && y.1 == z.1 {
            lemma_text_less_trans(x.0, y.0, z.0);
        }
    }
    assert forall|x: (Seq<char>, i64), y: (Seq<char>, i64)| #[trigger] recency_order()(x, y) implies !recency_order()(
        y,
        x,
    ) by {
        if x.1 == y.1 {
            lemma_text_less_asym(x.0, y.0);
        }
    }
    lemma_stable_sort_sorted(input, recency_order());
    crate::seqs::lemma_stable_sort_members(input, recency_order());
    assert forall|a: int, b: int| 0 <= a < b < sorted.len() implies (#[trigger] sorted[a]).1 >= (#[trigger] sorted[b]).1
        && (sorted[a].1 == sorted[b].1 ==> text_order(sorted[b].0, sorted[a].0) != Order::Less) by {
        assert(!recency_order()(sorted[b], sorted[a]));
    }
}

/// Setting a roster slot puts the character in that slot and keeps the
/// roster's length; a character already elsewhere in the roster trades
/// places with the slot's occupant, so a roster with no character twice
/// keeps none twice.
pub proof fn lemma_roster_slot_set(r: Seq<Seq<char>>, slot: int, id: Seq<char>)
    requires
        0 <= slot < r.len(),
    ensures
        roster_with_slot(r, slot, id).len() == r.len(),
        roster_with_slot(r, slot, id)[slot] == id,
        r.no_duplicates() ==> roster_with_slot(r, slot, id).no_duplicates(),
        forall|k: int| 0 <= k < r.len() && k != slot && r[k] != id ==> #[trigger] roster_with_slot(r, slot, id)[k]
            == r[k],
{
    lemma_find_index(r, is_text(id));
    let n = roster_with_slot(r, slot, id);
    match find_index(r, is_text(id)) {
        Some(e) => {
            assert(r[e] == id);
            if r.no_duplicates() {
                assert forall|a: int, b: int| 0 <= a < n.len() && 0 <= b < n.len() && a != b implies n[a] != n[b] by {
                    let pa = if a == slot { e } else if a == e { slot } else { a };
                    let pb = if b == slot { e } else if b == e { slot } else { b };
                    assert(n[a] == r[pa]);
                    assert(n[b] == r[pb]);
                }
            }
            assert forall|k: int| 0 <= k < r.len() && k != slot && r[k] != id implies #[trigger] n[k] == r[k] by {
                assert(k != e);
            }
        },
        None => {
            if r.no_duplicates() {
                assert forall|a: int, b: int| 0 <= a < n.len() && 0 <= b < n.len() && a != b implies n[a] != n[b] by {
                    if a == slot {
                        assert(!is_text(id)(r[b]));
                    } else if b == slot {
                        assert(!is_text(id)(r[a]));
                    } else {
                        assert(n[a] == r[a] && n[b] == r[b]);
                    }
                }
            }
        },
    }
}

/// `after` is `before` with the deck at `i` renamed to what `new_name`
/// becomes as a unique name, and the deck as it was kept for undo.
pub open spec fn renamed_at(before: DecksSaveView, after: DecksSaveView, i: int, new_name: Seq<char>) -> bool {
    &&& edited_at(before, after, i)
    &&& touched(DeckPresetView { name: after.decks[i].name, ..before.decks[i] }, after.decks[i])
    &&& is_unique_name(before.decks, new_name, before.selected, after.decks[i].name)
}

/// `d` is a copy of `source` with a new id and name, made at one time.
pub open spec fn is_copy_of(d: DeckPresetView, source: DeckPresetView, id: Seq<char>) -> bool {
    d == DeckPresetView {
        id: id,
        name: d.name,
        created_at_unix: d.created_at_unix,
        updated_at_unix: d.created_at_unix,
        ..source
    }
}

/// The deck an imported deck becomes.
pub open spec fn is_imported_deck(d: DeckPresetView, imported: ImportedDeck, id: Seq<char>) -> bool {
    d == DeckPresetView {
        id: id,
        name: d.name,
        source_template_id: None,
        notes: Seq::empty(),
        archetype_tags: Seq::empty(),
        story_cards: views(imported.story_cards@),
        magical_girl_roster: views(imported.magical_girl_roster@),
        baddie_roster: views(imported.baddie_roster@),
        created_at_unix: d.created_at_unix,
        updated_at_unix: d.created_at_unix,
        recent_story_cards: first_five(views(imported.story_cards@)),
    }
}

/// The state after deleting the deck at `i`: the selection repaired
/// against the remaining decks and the undo snapshot cleared.
pub open spec fn deleted_at(before: DecksSaveView, i: int) -> DecksSaveView {
    let rest = DecksSaveView { decks: before.decks.remove(i), ..before };
    DecksSaveView { selected: resolved_selection(rest), undo: None, ..rest }
}

/// The deck `d` reset to its starter: the starter's cards, rosters rebuilt
/// from the starter over the deck's current rosters, the first five cards as
/// recent.
pub open spec fn reset_to(d: DeckPresetView, starter: StarterLoadout) -> DeckPresetView {
    DeckPresetView {
        story_cards: views(starter.support_deck@),
        magical_girl_roster: template_roster(
            starter.magical_girl_main@,
            views(starter.magical_girl_supports@),
            d.magical_girl_roster,
        ),
        baddie_roster: template_roster(starter.prime_baddie@, views(starter.baddie_supports@), d.baddie_roster),
        recent_story_cards: first_five(views(starter.support_deck@)),
        ..d
    }
}

/// `after` is `before` with the selected deck, handed out as `now`, ending as `last`.
pub open spec fn edit_in_place(
    before: DecksSaveView,
    after: DecksSaveView,
    now: DeckPresetView,
    last: DeckPresetView,
) -> bool {
    match selected_index(before) {
        Some(i) => now == before.decks[i] && after == DecksSaveView {
            decks: before.decks.update(i, last),
            ..before
        },
        None => false,
    }
}

// ---------------------------------------------------------------------------
// Lemmas
// ---------------------------------------------------------------------------

proof fn lemma_views_update()
    ensures
        forall|v: Seq<DeckPreset>, i: int, x: DeckPreset|
            0 <= i < v.len() ==> #[trigger] deck_views(v.update(i, x)) == deck_views(v).update(i, x@),
{
    assert forall|v: Seq<DeckPreset>, i: int, x: DeckPreset| 0 <= i < v.len() implies #[trigger] deck_views(
        v.update(i, x),
    ) == deck_views(v).update(i, x@) by {
        assert(deck_views(v.update(i, x)) =~= deck_views(v).update(i, x@));
    }
}

proof fn lemma_numbered_injective(a: nat, b: nat)
    requires
        numbered_deck_id(a) == numbered_deck_id(b),
    ensures
        a == b,
{
    let p = "deck_"@;
    assert(numbered_deck_id(a).skip(p.len() as int) =~= decimal(a));
    assert(numbered_deck_id(b).skip(p.len() as int) =~= decimal(b));
    lemma_decimal_injective(a, b);
}

proof fn lemma_suffixed_lower(base: Seq<char>, n: nat)
    ensures
        lower_seq(suffixed_name(base, n)) == suffixed_name(lower_seq(base), n),
{
    lemma_decimal_value(n);
    lemma_lower_concat(base.push(' '), decimal(n));
    assert(lower_seq(base.push(' ')) =~= lower_seq(base).push(' '));
    assert(lower_seq(decimal(n)) =~= decimal(n));
}

proof fn lemma_suffixed_injective(base: Seq<char>, a: nat, b: nat)
    requires
        suffixed_name(base, a) == suffixed_name(base, b),
    ensures
        a == b,
{
    assert(suffixed_name(base, a).skip(base.len() + 1int) =~= decimal(a));
    assert(suffixed_name(base, b).skip(base.len() + 1int) =~= decimal(b));
    lemma_decimal_injective(a, b);
}

// ---------------------------------------------------------------------------
// Private queries
// ---------------------------------------------------------------------------

impl DecksSave {
    /// The undo snapshot.
    pub closed spec fn undo_view(self) -> Option<DeckPresetView> {
        self@.undo
    }

    proof fn lemma_view_decks(&self)
        ensures
            self@.decks.len() == self.support_decks@.len(),
            forall|i: int| 0 <= i < self.support_decks@.len() ==> #[trigger] self@.decks[i] == self.support_decks@[i]@,
    {
    }

    /// Position of the first deck with the id `id`.
    fn position_of_id(&self, id: &str) -> (res: Option<usize>)
        ensures
            match res {
                Some(i) => find_index(self@.decks, deck_has_id(id@)) == Some(i as int),
                None => find_index(self@.decks, deck_has_id(id@)) is None,
            },
    {
        proof {
            self.lemma_view_decks();
        }
        let mut i: usize = 0;
        while i < self.support_decks.len()
            invariant
                i <= self.support_decks.len(),
                self@.decks.len() == self.support_decks@.len(),
                forall|j: int| 0 <= j < self.support_decks@.len() ==> #[trigger] self@.decks[j] == self.support_decks@[j]@,
                forall|j: int| 0 <= j < i ==> !(#[trigger] deck_has_id(id@)(self@.decks[j])),
            decreases self.support_decks.len() - i,
        {
            if text_eq(self.support_decks[i].id.as_str(), id) {
                proof {
                    lemma_find_index_at(self@.decks, deck_has_id(id@), i as int);
                }
                return Some(i);
            }
            i = i + 1;
        }
        proof {
            lemma_find_index_none(self@.decks, deck_has_id(id@));
        }
        None
    }

    /// Position of the selected deck.
    fn selected_position(&self) -> (res: Option<usize>)
        ensures
            match res {
                Some(i) => selected_index(self@) == Some(i as int) && i < self.support_decks@.len(),
                None => selected_index(self@) is None,
            },
    {
        match &self.selected_support_deck_id {
            Some(id) => {
                let r = self.position_of_id(id.as_str());
                proof {
                    lemma_find_index(self@.decks, deck_has_id(id@));
                    self.lemma_view_decks();
                }
                r
            },
            None => None,
        }
    }

    /// Whether some deck has the id `id`.
    fn id_in_use(&self, id: &str) -> (res: bool)
        ensures
            res == id_used(self@.decks, id@),
    {
        proof {
            lemma_find_index(self@.decks, deck_has_id(id@));
        }
        match self.position_of_id(id) {
            Some(_) => true,
            None => false,
        }
    }

    /// The id `deck_N` for the smallest `N` above the deck count that no
    /// deck uses.
    fn next_deck_id(&self) -> (res: String)
        ensures
            is_next_deck_id(self@.decks, res@),
    {
        proof {
            self.lemma_view_decks();
        }
        let len = self.support_decks.len();
        let mut n: u128 = len as u128 + 1;
        loop
            invariant
                len == self@.decks.len(),
                len + 1 <= n <= 2 * len + 1,
                forall|m: nat| len + 1 <= m < n ==> id_used(self@.decks, #[trigger] numbered_deck_id(m)),
            decreases 2 * len + 1 - n,
        {
            let mut candidate = owned("deck_");
            let digits = decimal_string(n);
            append_text(&mut candidate, digits.as_str());
            assert(candidate@ == numbered_deck_id(n as nat));
            if !self.id_in_use(candidate.as_str()) {
                return candidate;
            }
            proof {
                let first = len + 1;
                let cands = Seq::new((n - len) as nat, |k: int| numbered_deck_id((first + k) as nat));
                let keys = self@.decks.map_values(|d: DeckPresetView| d.id);
                assert forall|a: int, b: int| 0 <= a < cands.len() && 0 <= b < cands.len() && a != b implies cands[a] != cands[b] by {
                    if cands[a] == cands[b] {
                        lemma_numbered_injective((first + a) as nat, (first + b) as nat);
                    }
                }
                assert forall|k: int| 0 <= k < cands.len() implies keys.contains(#[trigger] cands[k]) by {
                    let m = (first + k) as nat;
                    if m < n {
                        assert(id_used(self@.decks, numbered_deck_id(m)));
                    }
                    let i = choose|i: int| 0 <= i < self@.decks.len() && (#[trigger] self@.decks[i]).id == numbered_deck_id(m);
                    assert(keys[i] == cands[k]);
                }
                lemma_pigeonhole(cands, keys);
            }
            n = n + 1;
        }
    }

    /// Whether a deck other than the one with the id `ignored` has the
    /// name `name` up to ASCII case.
    fn name_in_use(&self, name: &str, ignored: &Option<String>) -> (res: bool)
        ensures
            res == name_taken(self@.decks, name@, opt_view(*ignored)),
    {
        proof {
            self.lemma_view_decks();
        }
        let mut i: usize = 0;
        while i < self.support_decks.len()
            invariant
                i <= self.support_decks.len(),
                self@.decks.len() == self.support_decks@.len(),
                forall|j: int| 0 <= j < self.support_decks@.len() ==> #[trigger] self@.decks[j] == self.support_decks@[j]@,
                forall|j: int|
                    0 <= j < i ==> !(opt_view(*ignored) != Some((#[trigger] self@.decks[j]).id)
                        && eq_ignore_case(self@.decks[j].name, name@)),
            decreases self.support_decks.len() - i,
        {
            let deck = &self.support_decks[i];
            let is_ignored = match ignored {
                Some(id) => text_eq(deck.id.as_str(), id.as_str()),
                None => false,
            };
            if !is_ignored && eq_ignore_ascii_case(deck.name.as_str(), name) {
                assert(self@.decks[i as int] == deck@);
                return true;
            }
            assert(self@.decks[i as int] == deck@);
            i = i + 1;
        }
        false
    }

    /// Number of decks whose name is exactly `name`.
    fn deck_name_count(&self, name: &str) -> (res: usize)
        ensures
            res == count_of(self@.decks.map_values(|d: DeckPresetView| d.name), name@),
    {
        proof {
            self.lemma_view_decks();
        }
        let ghost names = self@.decks.map_values(|d: DeckPresetView| d.name);
        let mut n: usize = 0;
        let mut i: usize = 0;
        while i < self.support_decks.len()
            invariant
                i <= self.support_decks.len(),
                n <= i,
                names == self@.decks.map_values(|d: DeckPresetView| d.name),
                self@.decks.len() == self.support_decks@.len(),
                forall|j: int| 0 <= j < self.support_decks@.len() ==> #[trigger] self@.decks[j] == self.support_decks@[j]@,
                n == count_of(names.take(i as int), name@),
            decreases self.support_decks.len() - i,
        {
            proof {
                assert(names.take(i + 1) =~= names.take(i as int).push(names[i as int]));
                crate::seqs::lemma_count_push(names.take(i as int), names[i as int], name@);
                assert(names[i as int] == self.support_decks@[i as int].name@);
            }
            if text_eq(self.support_decks[i].name.as_str(), name) {
                n = n + 1;
            }
            i = i + 1;
        }
        assert(names.take(self.support_decks.len() as int) =~= names);
        n
    }

    /// `desired` made into a deck name no other deck uses.
    fn unique_deck_name(&self, desired: &str) -> (res: String)
        ensures
            is_unique_name(self@.decks, desired@, None, res@),
    {
        self.unique_deck_name_for(desired, &None)
    }

    /// `desired` made into a deck name that no deck but the one with the id
    /// `ignored` uses.
    fn unique_deck_name_for(&self, desired: &str, ignored: &Option<String>) -> (res: String)
        ensures
            is_unique_name(self@.decks, desired@, opt_view(*ignored), res@),
    {
        let trimmed = trim(desired);
        if trimmed.as_str().is_empty() {
            return owned("Deck");
        }
        if !self.name_in_use(trimmed.as_str(), ignored) {
            return trimmed;
        }
        let ghost base = trimmed@;
        let ghost ig = opt_view(*ignored);
        let len = self.support_decks.len();
        proof {
            self.lemma_view_decks();
        }
        let mut suffix: u128 = 2;
        loop
            invariant
                base == trimmed@,
                base == trim_seq(desired@),
                base.len() > 0,
                name_taken(self@.decks, base, ig),
                ig == opt_view(*ignored),
                len == self@.decks.len(),
                2 <= suffix <= len + 2,
                forall|m: nat| 2 <= m < suffix ==> name_taken(self@.decks, #[trigger] suffixed_name(base, m), ig),
            decreases len + 2 - suffix,
        {
            let mut candidate = trimmed.clone();
            append_char(&mut candidate, ' ');
            let digits = decimal_string(suffix);
            append_text(&mut candidate, digits.as_str());
            assert(candidate@ == suffixed_name(base, suffix as nat));
            if !self.name_in_use(candidate.as_str(), ignored) {
                return candidate;
            }
            proof {
                let cands = Seq::new((suffix - 1) as nat, |k: int| lower_seq(suffixed_name(base, (2 + k) as nat)));
                let keys = self@.decks.map_values(
                    |d: DeckPresetView| if ig == Some(d.id) {
                        Seq::<char>::empty()
                    } else {
                        lower_seq(d.name)
                    },
                );
                assert forall|a: int, b: int| 0 <= a < cands.len() && 0 <= b < cands.len() && a != b implies cands[a] != cands[b] by {
                    lemma_suffixed_lower(base, (2 + a) as nat);
                    lemma_suffixed_lower(base, (2 + b) as nat);
                    if cands[a] == cands[b] {
                        lemma_suffixed_injective(lower_seq(base), (2 + a) as nat, (2 + b) as nat);
                    }
                }
                assert forall|k: int| 0 <= k < cands.len() implies keys.contains(#[trigger] cands[k]) by {
                    let m = (2 + k) as nat;
                    if m < suffix {
                        assert(name_taken(self@.decks, suffixed_name(base, m), ig));
                    }
                    let i = choose|i: int|
                        0 <= i < self@.decks.len() && ig != Some((#[trigger] self@.decks[i]).id) && eq_ignore_case(
                            self@.decks[i].name,
                            suffixed_name(base, m),
                        );
                    assert(keys[i] == cands[k]);
                }
                lemma_pigeonhole(cands, keys);
            }
            suffix = suffix + 1;
        }
    }
}

// ---------------------------------------------------------------------------
// Deck helpers
// ---------------------------------------------------------------------------

/// Replaces a roster that does not fit the known ids with the known ids.
fn fill_missing_roster(roster: &mut Vec<String>, fallback: &[String])
    ensures
        views(final(roster)@) == filled_roster(views(old(roster)@), views(fallback@)),
{
    let ghost r = views(roster@);
    let ghost f = views(fallback@);
    if roster.len() == fallback.len() {
        let mut all_known = true;
        let mut i: usize = 0;
        while i < roster.len()
            invariant
                i <= roster.len(),
                r == views(roster@),
                f == views(fallback@),
                all_known == (forall|k: int| 0 <= k < i ==> f.contains(#[trigger] r[k])),
            decreases roster.len() - i,
        {
            let known = contains_entry(fallback, roster[i].as_str());
            assert(r[i as int] == roster@[i as int]@);
            if !known {
                all_known = false;
            }
            i = i + 1;
        }
        if all_known {
            return;
        }
    }
    *roster = copy_slice(fallback);
}

/// Whether some entry of `v` is `x`.
fn contains_entry(v: &[String], x: &str) -> (res: bool)
    ensures
        res == views(v@).contains(x@),
{
    let mut i: usize = 0;
    while i < v.len()
        invariant
            i <= v.len(),
            forall|j: int| 0 <= j < i ==> v@[j]@ != x@,
        decreases v.len() - i,
    {
        if text_eq(v[i].as_str(), x) {
            assert(views(v@)[i as int] == x@);
            return true;
        }
        i = i + 1;
    }
    assert forall|j: int| 0 <= j < views(v@).len() implies views(v@)[j] != x@ by {
        assert(views(v@)[j] == v@[j]@);
    }
    false
}

/// Marks the deck as changed now.
fn touch_deck(deck: &mut DeckPreset)
    ensures
        touched(old(deck)@, final(deck)@),
        final(deck)@.updated_at_unix >= 0,
{
    deck.updated_at_unix = current_unix_timestamp();
}

/// Tags trimmed, with empty ones and case-insensitive repeats dropped.
fn normalized_tags(tags: &[String]) -> (res: Vec<String>)
    ensures
        views(res@) == normalized_tags_of(views(tags@)),
{
    let ghost t = views(tags@);
    let mut normalized: Vec<String> = Vec::new();
    let mut i: usize = 0;
    while i < tags.len()
        invariant
            i <= tags.len(),
            t == views(tags@),
            views(normalized@) == normalized_tags_of(t.take(i as int)),
        decreases tags.len() - i,
    {
        let trimmed = trim(tags[i].as_str());
        proof {
            assert(t.take(i + 1).drop_last() =~= t.take(i as int));
            assert(t.take(i + 1).last() == tags@[i as int]@);
        }
        if !trimmed.as_str().is_empty() {
            let ghost prev = views(normalized@);
            let mut seen = false;
            let mut j: usize = 0;
            while j < normalized.len()
                invariant
                    j <= normalized.len(),
                    prev == views(normalized@),
                    seen == (exists|k: int| 0 <= k < j && eq_ignore_case(#[trigger] prev[k], trimmed@)),
                decreases normalized.len() - j,
            {
                if eq_ignore_ascii_case(normalized[j].as_str(), trimmed.as_str()) {
                    assert(eq_ignore_case(prev[j as int], trimmed@));
                    seen = true;
                }
                assert(prev[j as int] == normalized@[j as int]@);
                j = j + 1;
            }
            if !seen {
                normalized.push(trimmed);
                assert(views(normalized@) =~= prev.push(trimmed@));
            }
        }
        i = i + 1;
    }
    assert(t.take(tags.len() as int) =~= t);
    normalized
}

/// `s` without any `x`, stated step by step.
proof fn lemma_without_push(s: Seq<Seq<char>>, y: Seq<char>, x: Seq<char>)
    ensures
        without(s.push(y), x) == if y == x {
            without(s, x)
        } else {
            without(s, x).push(y)
        },
{
    assert(s.push(y).drop_last() =~= s);
}

/// Moves `card_id` to the end of the recent list, keeping five entries.
fn push_recent_story_card(recent: &mut Vec<String>, card_id: &str)
    ensures
        views(final(recent)@) == pushed_recent(views(old(recent)@), card_id@),
{
    let ghost r = views(recent@);
    let mut kept: Vec<String> = Vec::new();
    let mut i: usize = 0;
    while i < recent.len()
        invariant
            i <= recent.len(),
            r == views(recent@),
            views(kept@) == without(r.take(i as int), card_id@),
        decreases recent.len() - i,
    {
        proof {
            assert(r.take(i + 1) =~= r.take(i as int).push(r[i as int]));
            lemma_without_push(r.take(i as int), r[i as int], card_id@);
            assert(r[i as int] == recent@[i as int]@);
        }
        if !text_eq(recent[i].as_str(), card_id) {
            let ghost before = views(kept@);
            kept.push(recent[i].clone());
            assert(views(kept@) =~= before.push(r[i as int]));
        }
        i = i + 1;
    }
    assert(r.take(recent.len() as int) =~= r);
    let ghost before = views(kept@);
    kept.push(owned(card_id));
    assert(views(kept@) =~= before.push(card_id@));
    if kept.len() > 5 {
        let ghost full = views(kept@);
        kept.remove(0);
        assert(views(kept@) =~= full.drop_first());
    }
    *recent = kept;
}

/// Appends `candidate` unless already present.
fn push_unique_card_id(entries: &mut Vec<String>, candidate: &str)
    ensures
        views(final(entries)@) == push_unique(views(old(entries)@), candidate@),
{
    let ghost before = views(entries@);
    let present = contains_entry(entries.as_slice(), candidate);
    if !present {
        entries.push(owned(candidate));
        assert(views(entries@) =~= before.push(candidate@));
    }
}

/// Appends each of `ids` unless already present.
fn push_unique_all_ids(entries: &mut Vec<String>, ids: &[String])
    ensures
        views(final(entries)@) == push_unique_all(views(old(entries)@), views(ids@)),
{
    let ghost start = views(entries@);
    let ghost xs = views(ids@);
    let mut i: usize = 0;
    while i < ids.len()
        invariant
            i <= ids.len(),
            xs == views(ids@),
            views(entries@) == push_unique_all(start, xs.take(i as int)),
        decreases ids.len() - i,
    {
        push_unique_card_id(entries, ids[i].as_str());
        proof {
            assert(xs.take(i + 1).drop_last() =~= xs.take(i as int));
            assert(xs.take(i + 1).last() == ids@[i as int]@);
        }
        i = i + 1;
    }
    assert(xs.take(ids.len() as int) =~= xs);
}

/// The roster of a starter: its main, then its supports, then the
/// fallback ids, without repeats and as long as the fallback.
fn build_template_roster(main_id: &str, support_ids: &[String], fallback: &[String]) -> (res: Vec<String>)
    ensures
        views(res@) == template_roster(main_id@, views(support_ids@), views(fallback@)),
{
    let mut roster: Vec<String> = Vec::new();
    roster.push(owned(main_id));
    assert(views(roster@) =~= seq![main_id@]);
    push_unique_all_ids(&mut roster, support_ids);
    push_unique_all_ids(&mut roster, fallback);
    let ghost full = views(roster@);
    if roster.len() > fallback.len() {
        roster.truncate(fallback.len());
        assert(views(roster@) =~= full.take(fallback.len() as int));
    }
    if roster.len() == fallback.len() {
        roster
    } else {
        copy_slice(fallback)
    }
}

/// The first (at most) five entries of `v`.
fn first_five_of(v: &Vec<String>) -> (res: Vec<String>)
    ensures
        views(res@) == first_five(views(v@)),
{
    let mut res = copy_strings(v);
    if res.len() > 5 {
        let ghost full = views(res@);
        res.truncate(5);
        assert(views(res@) =~= full.take(5));
    }
    res
}

/// Fills in creation and change times, normalizes tags, and keeps the
/// recent-card list to five (seeded from the last cards when empty).
fn ensure_deck_metadata(deck: &mut DeckPreset)
    ensures
        metadata_ensured(old(deck)@, final(deck)@),
{
    if deck.created_at_unix <= 0 {
        deck.created_at_unix = current_unix_timestamp();
    }
    if deck.updated_at_unix <= 0 {
        deck.updated_at_unix = deck.created_at_unix;
    }
    deck.archetype_tags = normalized_tags(deck.archetype_tags.as_slice());
    if deck.recent_story_cards.len() == 0 {
        let n = deck.story_cards.len();
        let start = if n > 5 { n - 5 } else { 0 };
        let mut recent: Vec<String> = Vec::new();
        let mut i = start;
        while i < n
            invariant
                start <= i <= n == deck.story_cards.len(),
                views(recent@) == views(deck.story_cards@).subrange(start as int, i as int),
            decreases n - i,
        {
            let ghost before = views(recent@);
            let c = deck.story_cards[i].clone();
            recent.push(c);
            assert(views(recent@) =~= before.push(deck.story_cards@[i as int]@));
            assert(views(deck.story_cards@)[i as int] == deck.story_cards@[i as int]@);
            assert(views(recent@) =~= views(deck.story_cards@).subrange(start as int, i + 1));
            i = i + 1;
        }
        assert(views(deck.story_cards@).subrange(start as int, n as int) =~= last_five(views(deck.story_cards@)));
        deck.recent_story_cards = recent;
    } else if deck.recent_story_cards.len() > 5 {
        let ghost full = views(deck.recent_story_cards@);
        deck.recent_story_cards.truncate(5);
        assert(views(deck.recent_story_cards@) =~= full.take(5));
    }
}

// ---------------------------------------------------------------------------
// Public operations
// ---------------------------------------------------------------------------

impl Default for DecksSave {
    fn default() -> (r: Self)
        ensures
            r@.version == 3,
            r@.decks.len() == 0,
            r@.selected is None,
            r@.roster_presets.len() == 0,
            r@.legacy_index == 0,
            r@.undo is None,
    {
        let r = DecksSave {
            version: 3,
            support_decks: Vec::new(),
            selected_support_deck_id: None,
            roster_presets: Vec::new(),
            legacy_active_support_deck_index: 0,
            undo_snapshot: None,
        };
        assert(r@.decks =~= Seq::<DeckPresetView>::empty());
        r
    }
}

impl DecksSave {
    /// A save as stored: its decks, selection, roster presets and the older
    /// layout's active-deck index. No edit can be undone yet.
    pub fn from_saved(
        version: u32,
        support_decks: Vec<DeckPreset>,
        selected_support_deck_id: Option<String>,
        roster_presets: Vec<String>,
        legacy_active_support_deck_index: usize,
    ) -> (r: Self)
        ensures
            r@.version == version,
            r@.decks == deck_views(support_decks@),
            r@.selected == opt_view(selected_support_deck_id),
            r@.roster_presets == views(roster_presets@),
            r@.legacy_index == legacy_active_support_deck_index,
            r@.undo is None,
    {
        DecksSave {
            version,
            support_decks,
            selected_support_deck_id,
            roster_presets,
            legacy_active_support_deck_index,
            undo_snapshot: None,
        }
    }

    /// Puts `deck` at position `i`.
    fn put_deck(&mut self, i: usize, deck: DeckPreset)
        requires
            i < old(self).support_decks.len(),
        ensures
            final(self)@ == (DecksSaveView { decks: old(self)@.decks.update(i as int, deck@), ..old(self)@ }),
            final(self).support_decks.len() == old(self).support_decks.len(),
    {
        self.support_decks.set(i, deck);
        assert(self@.decks =~= old(self)@.decks.update(i as int, deck@));
    }

    /// The selected id after repair.
    fn resolve_selected_deck_id(&self) -> (res: Option<String>)
        ensures
            opt_view(res) == resolved_selection(self@),
    {
        proof {
            self.lemma_view_decks();
        }
        if let Some(selected_id) = &self.selected_support_deck_id {
            if self.id_in_use(selected_id.as_str()) {
                return Some(selected_id.clone());
            }
        }
        if self.legacy_active_support_deck_index < self.support_decks.len() {
            return Some(self.support_decks[self.legacy_active_support_deck_index].id.clone());
        }
        if self.support_decks.len() > 0 {
            return Some(self.support_decks[0].id.clone());
        }
        None
    }

    /// Records the selected deck as the undo snapshot (none when nothing is selected).
    fn snapshot_selected_deck(&mut self)
        ensures
            final(self)@ == (DecksSaveView { undo: selected_deck(old(self)@), ..old(self)@ }),
    {
        match self.selected_position() {
            Some(i) => {
                let snapshot = self.support_decks[i].copy();
                proof {
                    self.lemma_view_decks();
                }
                self.undo_snapshot = Some(snapshot);
            },
            None => {
                self.undo_snapshot = None;
            },
        }
    }

    /// Repairs every deck's rosters against the known ids, fills in deck
    /// metadata, repairs the selection and raises the version to at least 3.
    pub fn ensure_valid_support_decks(&mut self, magical_girl_ids: &[String], baddie_ids: &[String])
        ensures
            save_repaired(old(self)@, final(self)@, views(magical_girl_ids@), views(baddie_ids@)),
    {
        let mut i: usize = 0;
        while i < self.support_decks.len()
            invariant
                i <= self.support_decks.len(),
                self.support_decks.len() == old(self).support_decks.len(),
                self@.decks.len() == old(self)@.decks.len(),
                forall|j: int|
                    0 <= j < i ==> repaired(
                        old(self)@.decks[j],
                        #[trigger] self@.decks[j],
                        views(magical_girl_ids@),
                        views(baddie_ids@),
                    ),
                forall|j: int| i <= j < self@.decks.len() ==> #[trigger] self@.decks[j] == old(self)@.decks[j],
                self@ == (DecksSaveView { decks: self@.decks, ..old(self)@ }),
            decreases self.support_decks.len() - i,
        {
            proof {
                self.lemma_view_decks();
            }
            let mut deck = self.support_decks[i].copy();
            assert(self@.decks[i as int] == self.support_decks@[i as int]@);
            assert(deck@ == old(self)@.decks[i as int]);
            fill_missing_roster(&mut deck.magical_girl_roster, magical_girl_ids);
            assert(deck@.id == old(self)@.decks[i as int].id);
            fill_missing_roster(&mut deck.baddie_roster, baddie_ids);
            let ghost mid = deck@;
            proof {
                let o = old(self)@.decks[i as int];
                assert(mid.id == o.id);
                assert(mid.magical_girl_roster == filled_roster(o.magical_girl_roster, views(magical_girl_ids@)));
                assert(mid.baddie_roster == filled_roster(o.baddie_roster, views(baddie_ids@)));
                assert(mid.story_cards == o.story_cards);
                assert(mid.archetype_tags == o.archetype_tags);
            }
            ensure_deck_metadata(&mut deck);
            assert(mid == (DeckPresetView {
                magical_girl_roster: filled_roster(old(self)@.decks[i as int].magical_girl_roster, views(magical_girl_ids@)),
                baddie_roster: filled_roster(old(self)@.decks[i as int].baddie_roster, views(baddie_ids@)),
                ..old(self)@.decks[i as int]
            }));
            self.put_deck(i, deck);
            i = i + 1;
        }
        proof {
            assert forall|j: int| 0 <= j < self@.decks.len() implies (#[trigger] self@.decks[j]).id == old(self)@.decks[j].id by {
                assert(repaired(old(self)@.decks[j], self@.decks[j], views(magical_girl_ids@), views(baddie_ids@)));
            }
            if old(self)@.selected is Some {
                let id = old(self)@.selected->0;
                if id_used(old(self)@.decks, id) {
                    let k = choose|k: int| 0 <= k < old(self)@.decks.len() && (#[trigger] old(self)@.decks[k]).id == id;
                    assert(self@.decks[k].id == id);
                }
                if id_used(self@.decks, id) {
                    let k = choose|k: int| 0 <= k < self@.decks.len() && (#[trigger] self@.decks[k]).id == id;
                    assert(old(self)@.decks[k].id == id);
                }
            }
        }
        self.selected_support_deck_id = self.resolve_selected_deck_id();
        if self.version < 3 {
            self.version = 3;
        }
    }

    /// The selected deck, if the selected id names one.
    pub fn selected_support_deck(&self) -> (res: Option<&DeckPreset>)
        ensures
            match res {
                Some(d) => selected_deck(self@) == Some(d@),
                None => selected_deck(self@) is None,
            },
    {
        match self.selected_position() {
            Some(i) => {
                proof {
                    self.lemma_view_decks();
                }
                Some(&self.support_decks[i])
            },
            None => None,
        }
    }

    /// Selects the deck with the id `deck_id`; `false` (and no change) when
    /// no deck has it.
    pub fn select_support_deck(&mut self, deck_id: &str) -> (res: bool)
        ensures
            res == id_used(old(self)@.decks, deck_id@),
            res ==> final(self)@ == (DecksSaveView { selected: Some(deck_id@), ..old(self)@ }),
            !res ==> final(self)@ == old(self)@,
    {
        if self.id_in_use(deck_id) {
            self.selected_support_deck_id = Some(owned(deck_id));
            return true;
        }
        false
    }

    /// The first deck made from the starter with the id `starter_id`.
    pub fn deck_for_template(&self, starter_id: &str) -> (res: Option<&DeckPreset>)
        ensures
            match res {
                Some(d) => template_deck_index(self@.decks, starter_id@) matches Some(i) && self@.decks[i] == d@,
                None => template_deck_index(self@.decks, starter_id@) is None,
            },
    {
        proof {
            self.lemma_view_decks();
        }
        let ghost p = made_from(starter_id@);
        let mut i: usize = 0;
        while i < self.support_decks.len()
            invariant
                i <= self.support_decks.len(),
                self@.decks.len() == self.support_decks@.len(),
                forall|j: int| 0 <= j < self.support_decks@.len() ==> #[trigger] self@.decks[j] == self.support_decks@[j]@,
                p == made_from(starter_id@),
                forall|j: int| 0 <= j < i ==> !p(#[trigger] self@.decks[j]),
            decreases self.support_decks.len() - i,
        {
            let matched = match &self.support_decks[i].source_template_id {
                Some(t) => text_eq(t.as_str(), starter_id),
                None => false,
            };
            assert(self@.decks[i as int] == self.support_decks@[i as int]@);
            assert(matched == p(self@.decks[i as int]));
            if matched {
                proof {
                    lemma_find_index_at(self@.decks, p, i as int);
                }
                return Some(&self.support_decks[i]);
            }
            i = i + 1;
        }
        proof {
            lemma_find_index_none(self@.decks, p);
        }
        None
    }

    /// Copies of `card_id` in the selected deck (0 when none is selected).
    pub fn card_count(&self, card_id: &str) -> (res: usize)
        ensures
            res == match selected_deck(self@) {
                Some(d) => count_of(d.story_cards, card_id@),
                None => 0,
            },
    {
        match self.selected_support_deck() {
            Some(deck) => count_text(&deck.story_cards, card_id),
            None => 0,
        }
    }

    /// Whether a copy of `card_id` may be added to the selected deck: the
    /// deck is not full, holds fewer copies than the limit, and the
    /// collection owns more copies than the deck holds.
    pub fn can_add_card(&self, card_id: &str, deck_rules: &DeckRules, collection: &CollectionSave) -> (res: bool)
        ensures
            res == can_add(self@, card_id@, *deck_rules, *collection),
    {
        let deck = match self.selected_support_deck() {
            Some(d) => d,
            None => {
                return false;
            },
        };
        let copies = self.card_count(card_id);
        deck.story_cards.len() < deck_rules.support_deck_size && copies < deck_rules.max_copies_per_story_card
            && collection.story_cards_available_for_deck(card_id, copies) > 0
    }

    /// Adds a copy of `card_id` to the selected deck when allowed, keeping
    /// the deck as it was for undo.
    pub fn add_card(&mut self, card_id: &str, deck_rules: &DeckRules, collection: &CollectionSave) -> (res: bool)
        ensures
            res ==> selected_deck_edited(old(self)@, final(self)@),
            res == can_add(old(self)@, card_id@, *deck_rules, *collection),
            !res ==> final(self)@ == old(self)@,
            res ==> card_added(old(self)@, final(self)@, card_id@),
    {
        if !self.can_add_card(card_id, deck_rules, collection) {
            return false;
        }
        let i = match self.selected_position() {
            Some(i) => i,
            None => {
                return false;
            },
        };
        self.snapshot_selected_deck();
        proof {
            self.lemma_view_decks();
        }
        let mut deck = self.support_decks[i].copy();
        let ghost before = views(deck.story_cards@);
        deck.story_cards.push(owned(card_id));
        assert(views(deck.story_cards@) =~= before.push(card_id@));
        touch_deck(&mut deck);
        push_recent_story_card(&mut deck.recent_story_cards, card_id);
        self.put_deck(i, deck);
        true
    }

    /// Removes one copy of `card_id` from the selected deck. When a deck is
    /// selected its state is kept for undo even if it holds no such card.
    pub fn remove_card(&mut self, card_id: &str) -> (res: bool)
        ensures
            res ==> selected_deck_edited(old(self)@, final(self)@),
            match selected_index(old(self)@) {
                None => !res && final(self)@ == old(self)@,
                Some(i) => {
                    let d = old(self)@.decks[i];
                    match find_index(d.story_cards, is_text(card_id@)) {
                        None => !res && final(self)@ == (DecksSaveView { undo: Some(d), ..old(self)@ }),
                        Some(k) => res && edited_at(old(self)@, final(self)@, i) && touched(
                            (DeckPresetView {
                                story_cards: d.story_cards.remove(k),
                                recent_story_cards: pushed_recent(d.recent_story_cards, card_id@),
                                ..d
                            }),
                            final(self)@.decks[i],
                        ),
                    }
                },
            },
    {
        let i = match self.selected_position() {
            Some(i) => i,
            None => {
                return false;
            },
        };
        self.snapshot_selected_deck();
        proof {
            self.lemma_view_decks();
        }
        let mut deck = self.support_decks[i].copy();
        let ghost cards = views(deck.story_cards@);
        let k = match position_of_text(&deck.story_cards, card_id) {
            Some(k) => k,
            None => {
                return false;
            },
        };
        deck.story_cards.remove(k);
        assert(views(deck.story_cards@) =~= cards.remove(k as int));
        touch_deck(&mut deck);
        push_recent_story_card(&mut deck.recent_story_cards, card_id);
        self.put_deck(i, deck);
        true
    }
}

impl DecksSave {
    /// Appends `deck`, selects it and clears the undo snapshot.
    fn push_selected(&mut self, deck: DeckPreset)
        ensures
            appended(old(self)@, final(self)@),
            final(self)@.decks.last() == deck@,
    {
        let id = deck.id.clone();
        self.support_decks.push(deck);
        self.selected_support_deck_id = Some(id);
        self.undo_snapshot = None;
        assert(self@.decks =~= old(self)@.decks.push(deck@));
    }

    /// Creates an empty deck with the given rosters, selects it, and
    /// returns its id.
    pub fn create_empty_deck(&mut self, base_name: &str, magical_girl_ids: &[String], baddie_ids: &[String]) -> (res: String)
        ensures
            appended(old(self)@, final(self)@),
            is_next_deck_id(old(self)@.decks, res@),
            is_empty_deck(final(self)@.decks.last(), res@, views(magical_girl_ids@), views(baddie_ids@)),
            is_unique_name(old(self)@.decks, base_name@, None, final(self)@.decks.last().name),
    {
        let deck_id = self.next_deck_id();
        let deck_name = self.unique_deck_name(base_name);
        let now = current_unix_timestamp();
        let deck = DeckPreset {
            id: deck_id.clone(),
            name: deck_name,
            source_template_id: None,
            notes: String::new(),
            archetype_tags: Vec::new(),
            story_cards: Vec::new(),
            magical_girl_roster: copy_slice(magical_girl_ids),
            baddie_roster: copy_slice(baddie_ids),
            created_at_unix: now,
            updated_at_unix: now,
            recent_story_cards: Vec::new(),
        };
        assert(deck@.archetype_tags =~= Seq::<Seq<char>>::empty());
        assert(deck@.story_cards =~= Seq::<Seq<char>>::empty());
        assert(deck@.recent_story_cards =~= Seq::<Seq<char>>::empty());
        self.push_selected(deck);
        deck_id
    }

    /// Creates a deck from a starter loadout (named after it, or with the
    /// copy suffix when a deck already has that name), selects it, and
    /// returns its id.
    pub fn create_deck_from_template(
        &mut self,
        starter: &StarterLoadout,
        magical_girl_ids: &[String],
        baddie_ids: &[String],
        copy_suffix: &str,
    ) -> (res: String)
        ensures
            appended(old(self)@, final(self)@),
            is_next_deck_id(old(self)@.decks, res@),
            final(self)@.decks.last() == starter_deck(
                *starter,
                res@,
                final(self)@.decks.last().name,
                views(magical_girl_ids@),
                views(baddie_ids@),
                final(self)@.decks.last().created_at_unix,
            ),
            is_unique_name(
                old(self)@.decks,
                if count_of(old(self)@.decks.map_values(|d: DeckPresetView| d.name), starter.name@) == 0 {
                    starter.name@
                } else {
                    copy_name(starter.name@, copy_suffix@)
                },
                None,
                final(self)@.decks.last().name,
            ),
    {
        let deck_id = self.next_deck_id();
        let preferred_name = if self.deck_name_count(starter.name.as_str()) == 0 {
            starter.name.clone()
        } else {
            let mut n = starter.name.clone();
            append_char(&mut n, ' ');
            append_text(&mut n, copy_suffix);
            n
        };
        let deck_name = self.unique_deck_name(preferred_name.as_str());
        let now = current_unix_timestamp();
        let magical_girl_roster = build_template_roster(
            starter.magical_girl_main.as_str(),
            starter.magical_girl_supports.as_slice(),
            magical_girl_ids,
        );
        let baddie_roster = build_template_roster(
            starter.prime_baddie.as_str(),
            starter.baddie_supports.as_slice(),
            baddie_ids,
        );
        let mut playstyle: Vec<String> = Vec::new();
        playstyle.push(starter.playstyle.clone());
        assert(views(playstyle@) =~= seq![starter.playstyle@]);
        let deck = DeckPreset {
            id: deck_id.clone(),
            name: deck_name,
            source_template_id: Some(starter.id.clone()),
            notes: starter.description.clone(),
            archetype_tags: normalized_tags(playstyle.as_slice()),
            story_cards: copy_strings(&starter.support_deck),
            magical_girl_roster,
            baddie_roster,
            created_at_unix: now,
            updated_at_unix: now,
            recent_story_cards: first_five_of(&starter.support_deck),
        };
        self.push_selected(deck);
        deck_id
    }

    /// Renames the selected deck to the trimmed `new_name`, made unique among
    /// the other decks; `false` (and no change) for a blank name or when no
    /// deck is selected.
    pub fn rename_selected_deck(&mut self, new_name: &str) -> (res: bool)
        ensures
            res ==> selected_deck_edited(old(self)@, final(self)@),
            res == (trim_seq(new_name@).len() > 0 && selected_index(old(self)@) is Some),
            !res ==> final(self)@ == old(self)@,
            res ==> (selected_index(old(self)@) matches Some(i) && renamed_at(old(self)@, final(self)@, i, new_name@)),
    {
        let trimmed_name = trim(new_name);
        if trimmed_name.as_str().is_empty() {
            return false;
        }
        let i = match self.selected_position() {
            Some(i) => i,
            None => {
                return false;
            },
        };
        let selected_id = self.selected_support_deck_id.clone();
        let unique_name = self.unique_deck_name_for(trimmed_name.as_str(), &selected_id);
        proof {
            crate::text::lemma_trim_idempotent(new_name@);
        }
        self.snapshot_selected_deck();
        proof {
            self.lemma_view_decks();
        }
        let mut deck = self.support_decks[i].copy();
        deck.name = unique_name;
        touch_deck(&mut deck);
        self.put_deck(i, deck);
        true
    }
}

impl DecksSave {
    /// Copies the selected deck under a new id and a unique name made from
    /// its name and `copy_suffix`, selects the copy and returns its id;
    /// `None` (and no change) when no deck is selected.
    pub fn duplicate_selected_deck(&mut self, copy_suffix: &str) -> (res: Option<String>)
        ensures
            match selected_deck(old(self)@) {
                None => res is None && final(self)@ == old(self)@,
                Some(source) => res matches Some(id) && appended(old(self)@, final(self)@) && is_next_deck_id(
                    old(self)@.decks,
                    id@,
                ) && is_copy_of(final(self)@.decks.last(), source, id@) && is_unique_name(
                    old(self)@.decks,
                    copy_name(source.name, copy_suffix@),
                    None,
                    final(self)@.decks.last().name,
                ),
            },
    {
        let source_deck = match self.selected_support_deck() {
            Some(d) => d.copy(),
            None => {
                return None;
            },
        };
        let deck_id = self.next_deck_id();
        let mut wanted = source_deck.name.clone();
        append_char(&mut wanted, ' ');
        append_text(&mut wanted, copy_suffix);
        let deck_name = self.unique_deck_name(wanted.as_str());
        let now = current_unix_timestamp();
        let deck = DeckPreset {
            id: deck_id.clone(),
            name: deck_name,
            source_template_id: source_deck.source_template_id,
            notes: source_deck.notes,
            archetype_tags: source_deck.archetype_tags,
            story_cards: source_deck.story_cards,
            magical_girl_roster: source_deck.magical_girl_roster,
            baddie_roster: source_deck.baddie_roster,
            created_at_unix: now,
            updated_at_unix: now,
            recent_story_cards: source_deck.recent_story_cards,
        };
        self.push_selected(deck);
        Some(deck_id)
    }

    /// Deletes the selected deck and selects another; `false` (and no
    /// change) when no deck is selected.
    pub fn delete_selected_deck(&mut self) -> (res: bool)
        ensures
            res == selected_index(old(self)@) is Some,
            !res ==> final(self)@ == old(self)@,
            res ==> final(self)@ == deleted_at(old(self)@, selected_index(old(self)@)->0),
    {
        let index = match self.selected_position() {
            Some(i) => i,
            None => {
                return false;
            },
        };
        self.support_decks.remove(index);
        assert(self@.decks =~= old(self)@.decks.remove(index as int));
        self.selected_support_deck_id = self.resolve_selected_deck_id();
        self.undo_snapshot = None;
        true
    }

    /// Adds an imported deck under a new id and a unique name (the trimmed
    /// imported name, or `default_name` when blank), selects it and returns
    /// its id.
    pub fn import_deck(&mut self, imported: ImportedDeck, default_name: &str) -> (res: String)
        ensures
            appended(old(self)@, final(self)@),
            is_next_deck_id(old(self)@.decks, res@),
            is_imported_deck(final(self)@.decks.last(), imported, res@),
            is_unique_name(
                old(self)@.decks,
                if trim_seq(imported.name@).len() == 0 {
                    default_name@
                } else {
                    trim_seq(imported.name@)
                },
                None,
                final(self)@.decks.last().name,
            ),
    {
        let ghost original = imported;
        let ImportedDeck { name, story_cards, magical_girl_roster, baddie_roster } = imported;
        let deck_id = self.next_deck_id();
        let trimmed = trim(name.as_str());
        let deck_name = if trimmed.as_str().is_empty() {
            self.unique_deck_name(default_name)
        } else {
            self.unique_deck_name(trimmed.as_str())
        };
        let now = current_unix_timestamp();
        let recent_story_cards = first_five_of(&story_cards);
        let deck = DeckPreset {
            id: deck_id.clone(),
            name: deck_name,
            source_template_id: None,
            notes: String::new(),
            archetype_tags: Vec::new(),
            story_cards,
            magical_girl_roster,
            baddie_roster,
            created_at_unix: now,
            updated_at_unix: now,
            recent_story_cards,
        };
        assert(deck@.archetype_tags =~= Seq::<Seq<char>>::empty());
        self.push_selected(deck);
        deck_id
    }

    /// Puts `character_id` in roster slot `slot_index` of the selected deck
    /// (swapping when the character is already in the roster). When a deck
    /// is selected its state is kept for undo, even if the slot is out of range.
    pub fn set_roster_slot(&mut self, is_magical_girl_side: bool, slot_index: usize, character_id: &str) -> (res: bool)
        ensures
            res ==> selected_deck_edited(old(self)@, final(self)@),
            match selected_index(old(self)@) {
                None => !res && final(self)@ == old(self)@,
                Some(i) => {
                    let d = old(self)@.decks[i];
                    let r = if is_magical_girl_side {
                        d.magical_girl_roster
                    } else {
                        d.baddie_roster
                    };
                    if slot_index >= r.len() {
                        !res && final(self)@ == (DecksSaveView { undo: Some(d), ..old(self)@ })
                    } else {
                        let nr = roster_with_slot(r, slot_index as int, character_id@);
                        res && edited_at(old(self)@, final(self)@, i) && touched(
                            if is_magical_girl_side {
                                DeckPresetView { magical_girl_roster: nr, ..d }
                            } else {
                                DeckPresetView { baddie_roster: nr, ..d }
                            },
                            final(self)@.decks[i],
                        )
                    }
                },
            },
    {
        let i = match self.selected_position() {
            Some(i) => i,
            None => {
                return false;
            },
        };
        self.snapshot_selected_deck();
        proof {
            self.lemma_view_decks();
        }
        let mut deck = self.support_decks[i].copy();
        let mut roster = if is_magical_girl_side {
            copy_strings(&deck.magical_girl_roster)
        } else {
            copy_strings(&deck.baddie_roster)
        };
        if slot_index >= roster.len() {
            return false;
        }
        let ghost r = views(roster@);
        match position_of_text(&roster, character_id) {
            Some(existing_index) => {
                let a = roster[slot_index].clone();
                let b = roster[existing_index].clone();
                roster.set(slot_index, b);
                roster.set(existing_index, a);
                assert(views(roster@) =~= roster_with_slot(r, slot_index as int, character_id@));
            },
            None => {
                roster.set(slot_index, owned(character_id));
                assert(views(roster@) =~= roster_with_slot(r, slot_index as int, character_id@));
            },
        }
        if is_magical_girl_side {
            deck.magical_girl_roster = roster;
        } else {
            deck.baddie_roster = roster;
        }
        touch_deck(&mut deck);
        self.put_deck(i, deck);
        true
    }

    /// Sets the selected deck's notes (trimmed) and tags (normalized);
    /// `false` (and no change) when no deck is selected.
    pub fn update_selected_deck_metadata(&mut self, notes: &str, tags: &[String]) -> (res: bool)
        ensures
            res ==> selected_deck_edited(old(self)@, final(self)@),
            res == selected_index(old(self)@) is Some,
            !res ==> final(self)@ == old(self)@,
            res ==> edited_at(old(self)@, final(self)@, selected_index(old(self)@)->0) && touched(
                (DeckPresetView {
                    notes: trim_seq(notes@),
                    archetype_tags: normalized_tags_of(views(tags@)),
                    ..old(self)@.decks[selected_index(old(self)@)->0]
                }),
                final(self)@.decks[selected_index(old(self)@)->0],
            ),
    {
        let i = match self.selected_position() {
            Some(i) => i,
            None => {
                return false;
            },
        };
        self.snapshot_selected_deck();
        proof {
            self.lemma_view_decks();
        }
        let mut deck = self.support_decks[i].copy();
        deck.notes = trim(notes);
        deck.archetype_tags = normalized_tags(tags);
        touch_deck(&mut deck);
        self.put_deck(i, deck);
        true
    }

    /// Restores the deck kept by the last edit and selects it; the snapshot
    /// is used up either way. `false` when there is none or its deck is gone.
    pub fn undo_selected_deck_change(&mut self) -> (res: bool)
        ensures
            res == undo_restores(old(self)@),
            final(self)@ == after_undo(old(self)@),
    {
        let snapshot = match &self.undo_snapshot {
            Some(s) => s.copy(),
            None => {
                return false;
            },
        };
        let index = match self.position_of_id(snapshot.id.as_str()) {
            Some(i) => i,
            None => {
                self.undo_snapshot = None;
                return false;
            },
        };
        proof {
            lemma_find_index(self@.decks, deck_has_id(snapshot.id@));
            self.lemma_view_decks();
        }
        let id = snapshot.id.clone();
        self.put_deck(index, snapshot);
        self.selected_support_deck_id = Some(id);
        self.undo_snapshot = None;
        true
    }

    /// Whether an edit can be undone.
    pub fn can_undo_selected_deck_change(&self) -> (res: bool)
        ensures
            res == self@.undo is Some,
    {
        self.undo_snapshot.is_some()
    }

    /// Resets the selected deck to the starter it was made from; `false`
    /// (and no change) when no deck is selected or it was not made from
    /// `starter`.
    pub fn reset_selected_deck_to_template(&mut self, starter: &StarterLoadout) -> (res: bool)
        ensures
            res ==> selected_deck_edited(old(self)@, final(self)@),
            res == (selected_deck(old(self)@) matches Some(d) && d.source_template_id == Some(starter.id@)),
            !res ==> final(self)@ == old(self)@,
            res ==> edited_at(old(self)@, final(self)@, selected_index(old(self)@)->0) && touched(
                reset_to(old(self)@.decks[selected_index(old(self)@)->0], *starter),
                final(self)@.decks[selected_index(old(self)@)->0],
            ),
    {
        let i = match self.selected_position() {
            Some(i) => i,
            None => {
                return false;
            },
        };
        proof {
            self.lemma_view_decks();
        }
        let from_starter = match &self.support_decks[i].source_template_id {
            Some(t) => text_eq(t.as_str(), starter.id.as_str()),
            None => false,
        };
        if !from_starter {
            return false;
        }
        self.snapshot_selected_deck();
        proof {
            self.lemma_view_decks();
        }
        let mut deck = self.support_decks[i].copy();
        deck.story_cards = copy_strings(&starter.support_deck);
        deck.magical_girl_roster = build_template_roster(
            starter.magical_girl_main.as_str(),
            starter.magical_girl_supports.as_slice(),
            deck.magical_girl_roster.as_slice(),
        );
        deck.baddie_roster = build_template_roster(
            starter.prime_baddie.as_str(),
            starter.baddie_supports.as_slice(),
            deck.baddie_roster.as_slice(),
        );
        deck.recent_story_cards = first_five_of(&starter.support_deck);
        touch_deck(&mut deck);
        self.put_deck(i, deck);
        true
    }
}

/// The pairs with their texts by characters.
pub open spec fn pair_views(v: Seq<(String, i64)>) -> Seq<(Seq<char>, i64)> {
    v.map_values(|p: (String, i64)| (p.0@, p.1))
}

/// Whether `x` goes strictly before `y`.
fn goes_before(x: &(String, i64), y: &(String, i64)) -> (res: bool)
    ensures
        res == recency_before((x.0@, x.1), (y.0@, y.1)),
{
    if x.1 > y.1 {
        return true;
    }
    if x.1 < y.1 {
        return false;
    }
    match compare_text(x.0.as_str(), y.0.as_str()) {
        Order::Less => true,
        _ => false,
    }
}

impl DecksSave {
    /// The ids of the `limit` most recently changed decks, newest first
    /// (ties by id).
    pub fn recently_modified_deck_ids(&self, limit: usize) -> (res: Vec<String>)
        ensures
            views(res@) == recent_deck_ids(self@.decks, limit as int),
    {
        proof {
            self.lemma_view_decks();
        }
        let ghost input = self@.decks.map_values(|d: DeckPresetView| (d.id, d.updated_at_unix));
        let mut sorted: Vec<(String, i64)> = Vec::new();
        let mut i: usize = 0;
        while i < self.support_decks.len()
            invariant
                i <= self.support_decks.len(),
                input == self@.decks.map_values(|d: DeckPresetView| (d.id, d.updated_at_unix)),
                self@.decks.len() == self.support_decks@.len(),
                forall|j: int| 0 <= j < self.support_decks@.len() ==> #[trigger] self@.decks[j] == self.support_decks@[j]@,
                pair_views(sorted@) == sort_by_recency(input.take(i as int)),
            decreases self.support_decks.len() - i,
        {
            let x = (self.support_decks[i].id.clone(), self.support_decks[i].updated_at_unix);
            let ghost xv = (x.0@, x.1);
            let ghost sv = pair_views(sorted@);
            proof {
                assert(self@.decks[i as int] == self.support_decks@[i as int]@);
                assert(input[i as int] == xv);
                assert(input.take(i + 1).drop_last() =~= input.take(i as int));
                assert(input.take(i + 1).last() == xv);
            }
            let mut j: usize = 0;
            while j < sorted.len() && !goes_before(&x, &sorted[j])
                invariant
                    j <= sorted.len(),
                    sv == pair_views(sorted@),
                    xv == (x.0@, x.1),
                    forall|k: int| 0 <= k < j ==> !(#[trigger] goes_after(xv)(sv[k])),
                decreases sorted.len() - j,
            {
                assert(sv[j as int] == (sorted@[j as int].0@, sorted@[j as int].1));
                j = j + 1;
            }
            proof {
                if j < sorted.len() {
                    assert(sv[j as int] == (sorted@[j as int].0@, sorted@[j as int].1));
                    lemma_find_index_at(sv, goes_after(xv), j as int);
                } else {
                    lemma_find_index_none(sv, goes_after(xv));
                }
                assert(insert_position(sv, xv) == j as int);
            }
            sorted.insert(j, x);
            assert(pair_views(sorted@) =~= sv.insert(j as int, xv));
            i = i + 1;
        }
        assert(input.take(self.support_decks.len() as int) =~= input);
        let ghost sv = pair_views(sorted@);
        let mut res: Vec<String> = Vec::new();
        let mut k: usize = 0;
        while k < sorted.len() && k < limit
            invariant
                k <= sorted.len(),
                k <= limit,
                sv == pair_views(sorted@),
                views(res@) == sv.take(k as int).map_values(|p: (Seq<char>, i64)| p.0),
            decreases sorted.len() - k,
        {
            let ghost before = views(res@);
            res.push(sorted[k].0.clone());
            assert(sv[k as int] == (sorted@[k as int].0@, sorted@[k as int].1));
            assert(views(res@) =~= before.push(sorted@[k as int].0@));
            assert(views(res@) =~= sv.take(k + 1).map_values(|p: (Seq<char>, i64)| p.0));
            k = k + 1;
        }
        assert(truncated(sv, limit as int) =~= sv.take(k as int));
        res
    }
}

impl DecksSave {
    /// The selected deck, to edit in place.
    pub fn selected_support_deck_mut(&mut self) -> (res: Option<&mut DeckPreset>)
        ensures
            selected_index(old(self)@) is None ==> res is None && final(self)@ == old(self)@,
            selected_index(old(self)@) is Some ==> res is Some,
            forall|d: &mut DeckPreset|
                res == Some(d) ==> edit_in_place(old(self)@, final(self)@, (*d)@, (*final(d))@),
    {
        match self.selected_position() {
            Some(i) => {
                proof {
                    self.lemma_view_decks();
                    lemma_views_update();
                }
                Some(&mut self.support_decks[i])
            },
            None => None,
        }
    }
}

} // verus!
