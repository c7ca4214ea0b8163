//! Persistent campaign run data.

use vstd::prelude::*;

use crate::data::{CampaignDefinition, CampaignEncounterDefinition, CampaignNodeDefinition,
    encounter_has_id, node_has_id};
use crate::decks::{DeckPreset, DeckPresetView};
use crate::seqs::{copy_strings, count_of, find_first, find_index, find_last_index, is_text,
    lemma_count_push, lemma_find_index, lemma_find_index_at, lemma_find_index_none, lemma_find_last_index_at,
    lemma_find_last_index_none, position_of_text, views};
use crate::text::{append_text, decimal, decimal_string, owned, text_eq, trim, trim_seq};
use crate::timestamp::current_unix_timestamp;

verus! {

/// Where a run stands.
#[derive(Clone, Copy, Debug, PartialEq, Eq, Structural)]
pub enum CampaignRunStatus {
    InProgress,
    Won,
    Lost,
}

/// One battle fought in a run.
#[derive(Clone, Debug)]
pub struct CampaignBattleRecord {
    pub node_id: String,
    pub encounter_id: String,
    pub won: bool,
}

/// A campaign run: its progress, the deck it is played with, and its battles.
#[derive(Clone, Debug)]
pub struct CampaignRunSave {
    pub id: String,
    pub name: String,
    pub campaign_id: String,
    pub status: CampaignRunStatus,
    pub current_node_id: String,
    pub completed_node_ids: Vec<String>,
    pub player_deck: DeckPreset,
    pub selected_magical_girl_support_ids: Vec<String>,
    pub battle_history: Vec<CampaignBattleRecord>,
    pub created_at_unix: i64,
    pub updated_at_unix: i64,
}

/// All saved runs and which one is selected.
#[derive(Clone, Debug)]
pub struct CampaignSaveBundle {
    pub version: u32,
    pub runs: Vec<CampaignRunSave>,
    pub selected_run_id: Option<String>,
}

/// The content of a battle record.
pub struct BattleRecordView {
    pub node_id: Seq<char>,
    pub encounter_id: Seq<char>,
    pub won: bool,
}

/// The content of a run.
pub struct CampaignRunView {
    pub id: Seq<char>,
    pub name: Seq<char>,
    pub campaign_id: Seq<char>,
    pub status: CampaignRunStatus,
    pub current_node_id: Seq<char>,
    pub completed_node_ids: Seq<Seq<char>>,
    pub player_deck: DeckPresetView,
    pub supports: Seq<Seq<char>>,
    pub battle_history: Seq<BattleRecordView>,
    pub created_at_unix: i64,
    pub updated_at_unix: i64,
}

/// The content of a bundle.
pub struct CampaignBundleView {
    pub version: u32,
    pub runs: Seq<CampaignRunView>,
    pub selected: Option<Seq<char>>,
}

impl View for CampaignBattleRecord {
    type V = BattleRecordView;

    open spec fn view(&self) -> BattleRecordView {
        BattleRecordView { node_id: self.node_id@, encounter_id: self.encounter_id@, won: self.won }
    }
}

/// The contents of a list of battle records.
pub open spec fn record_views(v: Seq<CampaignBattleRecord>) -> Seq<BattleRecordView> {
    v.map_values(|r: CampaignBattleRecord| r@)
}

impl View for CampaignRunSave {
    type V = CampaignRunView;

    open spec fn view(&self) -> CampaignRunView {
        CampaignRunView {
            id: self.id@,
            name: self.name@,
            campaign_id: self.campaign_id@,
            status: self.status,
            current_node_id: self.current_node_id@,
            completed_node_ids: views(self.completed_node_ids@),
            player_deck: self.player_deck@,
            supports: views(self.selected_magical_girl_support_ids@),
            battle_history: record_views(self.battle_history@),
            created_at_unix: self.created_at_unix,
            updated_at_unix: self.updated_at_unix,
        }
    }
}

/// The selected run of `before` was `now`, and `after` holds `last` in
/// its place, all else unchanged.
pub open spec fn run_edit_in_place(
    before: CampaignBundleView,
    after: CampaignBundleView,
    now: CampaignRunView,
    last: CampaignRunView,
) -> bool {
    match selected_run_index(before) {
        Some(i) => now == before.runs[i] && after == CampaignBundleView {
            runs: before.runs.update(i, last),
            ..before
        },
        None => false,
    }
}

/// The contents of a list of runs.
pub open spec fn run_views(v: Seq<CampaignRunSave>) -> Seq<CampaignRunView> {
    v.map_values(|r: CampaignRunSave| r@)
}

impl View for CampaignSaveBundle {
    type V = CampaignBundleView;

    open spec fn view(&self) -> CampaignBundleView {
        CampaignBundleView {
            version: self.version,
            runs: run_views(self.runs@),
            selected: match self.selected_run_id {
                Some(s) => Some(s@),
                None => None,
            },
        }
    }
}

// ---------------------------------------------------------------------------
// Specifications
// ---------------------------------------------------------------------------

/// The run has the id `id`.
pub open spec fn run_has_id(id: Seq<char>) -> spec_fn(CampaignRunView) -> bool {
    |r: CampaignRunView| r.id == id
}

/// The run is in progress.
pub open spec fn run_in_progress() -> spec_fn(CampaignRunView) -> bool {
    |r: CampaignRunView| r.status == CampaignRunStatus::InProgress
}

/// The id the selection resolves to: the selected id, or else the id of the
/// latest run in progress, or else of the latest run.
pub open spec fn selection_target(v: CampaignBundleView) -> Option<Seq<char>> {
    match v.selected {
        Some(id) => Some(id),
        None => match find_last_index(v.runs, run_in_progress()) {
            Some(i) => Some(v.runs[i].id),
            None => if v.runs.len() > 0 {
                Some(v.runs.last().id)
            } else {
                None
            },
        },
    }
}

/// Position of the selected run: the first run with the target id.
pub open spec fn selected_run_index(v: CampaignBundleView) -> Option<int> {
    match selection_target(v) {
        Some(id) => find_index(v.runs, run_has_id(id)),
        None => None,
    }
}

/// The selected run, if any.
pub open spec fn selected_run_of(v: CampaignBundleView) -> Option<CampaignRunView> {
    match selected_run_index(v) {
        Some(i) => Some(v.runs[i]),
        None => None,
    }
}

/// `after` is `before` with the run at `i` replaced.
pub open spec fn run_edited_at(before: CampaignBundleView, after: CampaignBundleView, i: int) -> bool {
    &&& 0 <= i < before.runs.len()
    &&& after == CampaignBundleView { runs: before.runs.update(i, after.runs[i]), ..before }
}

/// `b` is `a` with only the change time possibly different.
pub open spec fn run_touched(a: CampaignRunView, b: CampaignRunView) -> bool {
    b == CampaignRunView { updated_at_unix: b.updated_at_unix, ..a }
}

/// The id of the `n`-th run.
pub open spec fn numbered_run_id(n: nat) -> Seq<char> {
    "campaign_run_"@ + decimal(n)
}

/// The name of a run started with `deck`.
pub open spec fn run_name_for(deck: DeckPresetView, default_name: Seq<char>) -> Seq<char> {
    if trim_seq(deck.name).len() == 0 {
        default_name
    } else {
        deck.name + " Run"@
    }
}

/// The supports after toggling `id`: removed when chosen, added when fewer
/// than two are chosen.
pub open spec fn toggled_supports(s: Seq<Seq<char>>, id: Seq<char>) -> Option<Seq<Seq<char>>> {
    match find_index(s, is_text(id)) {
        Some(k) => Some(s.remove(k)),
        None => if s.len() < 2 {
            Some(s.push(id))
        } else {
            None
        },
    }
}

/// Whether `id` can be toggled for `run`: in its roster but not its main.
pub open spec fn toggle_allowed(run: CampaignRunView, id: Seq<char>) -> bool {
    let roster = run.player_deck.magical_girl_roster;
    &&& !(roster.len() > 0 && roster[0] == id)
    &&& roster.contains(id)
    &&& toggled_supports(run.supports, id) is Some
}

/// The recent-card list after a reward: appended, keeping the last five.
pub open spec fn with_reward(recent: Seq<Seq<char>>, card: Seq<char>) -> Seq<Seq<char>> {
    let r = recent.push(card);
    if r.len() > 5 {
        r.drop_first()
    } else {
        r
    }
}

/// The run after winning at `node` (with `encounter`), with an optional reward card.
pub open spec fn after_victory(
    run: CampaignRunView,
    node: CampaignNodeDefinition,
    encounter: CampaignEncounterDefinition,
    reward: Option<Seq<char>>,
    updated: i64,
) -> CampaignRunView {
    let deck = match reward {
        Some(c) => DeckPresetView {
            story_cards: run.player_deck.story_cards.push(c),
            recent_story_cards: with_reward(run.player_deck.recent_story_cards, c),
            ..run.player_deck
        },
        None => run.player_deck,
    };
    CampaignRunView {
        completed_node_ids: run.completed_node_ids.push(node.id@),
        player_deck: deck,
        battle_history: run.battle_history.push(
            BattleRecordView { node_id: node.id@, encounter_id: encounter.id@, won: true },
        ),
        updated_at_unix: updated,
        current_node_id: if node.next_node_ids@.len() > 0 {
            node.next_node_ids@[0]@
        } else {
            run.current_node_id
        },
        status: if node.next_node_ids@.len() > 0 {
            run.status
        } else {
            CampaignRunStatus::Won
        },
        ..run
    }
}

/// The run after losing at `node` (with `encounter`).
pub open spec fn after_defeat(
    run: CampaignRunView,
    node: CampaignNodeDefinition,
    encounter: CampaignEncounterDefinition,
    updated: i64,
) -> CampaignRunView {
    CampaignRunView {
        battle_history: run.battle_history.push(
            BattleRecordView { node_id: node.id@, encounter_id: encounter.id@, won: false },
        ),
        status: CampaignRunStatus::Lost,
        updated_at_unix: updated,
        ..run
    }
}

/// The node and encounter a battle at `node_id` is fought at, when the
/// campaign has both.
pub open spec fn battle_site(campaign: CampaignDefinition, node_id: Seq<char>) -> Option<
    (CampaignNodeDefinition, CampaignEncounterDefinition),
> {
    match find_first(campaign.nodes@, node_has_id(node_id)) {
        Some(n) => match find_first(campaign.encounters@, encounter_has_id(n.encounter_id@)) {
            Some(e) => Some((n, e)),
            None => None,
        },
        None => None,
    }
}

/// `after` is `before` with a new run of `campaign` appended and selected,
/// numbered after the runs before it.
pub open spec fn run_created(
    before: CampaignBundleView,
    after: CampaignBundleView,
    id: Seq<char>,
    campaign: CampaignDefinition,
    deck: DeckPresetView,
    default_name: Seq<char>,
) -> bool {
    let run = after.runs.last();
    &&& id == numbered_run_id((before.runs.len() + 1) as nat)
    &&& after.runs.len() == before.runs.len() + 1
    &&& after == CampaignBundleView { runs: before.runs.push(run), selected: Some(id), ..before }
    &&& run == CampaignRunView {
        id: id,
        name: run_name_for(deck, default_name),
        campaign_id: campaign.id@,
        status: CampaignRunStatus::InProgress,
        current_node_id: campaign.nodes@[0].id@,
        completed_node_ids: Seq::empty(),
        player_deck: deck,
        supports: Seq::empty(),
        battle_history: Seq::empty(),
        created_at_unix: run.created_at_unix,
        updated_at_unix: run.created_at_unix,
    }
}

// ---------------------------------------------------------------------------
// Laws
// ---------------------------------------------------------------------------

/// A newly created run becomes the selected run, whatever was selected
/// before, when no earlier run has its id.
pub proof fn lemma_new_run_is_selected(
    before: CampaignBundleView,
    after: CampaignBundleView,
    id: Seq<char>,
    campaign: CampaignDefinition,
    deck: DeckPresetView,
    default_name: Seq<char>,
)
    requires
        run_created(before, after, id, campaign, deck, default_name),
        find_index(before.runs, run_has_id(id)) is None,
    ensures
        selected_run_index(after) == Some(before.runs.len() as int),
        selected_run_of(after) == Some(after.runs.last()),
        after.runs.last().status == CampaignRunStatus::InProgress,
{
    lemma_find_index(before.runs, run_has_id(id));
    assert forall|j: int| 0 <= j < before.runs.len() implies !(#[trigger] run_has_id(id)(after.runs[j])) by {
        assert(after.runs[j] == before.runs[j]);
        assert(!run_has_id(id)(before.runs[j]));
    }
    lemma_find_index_at(after.runs, run_has_id(id), before.runs.len() as int);
}

/// A won battle completes its node, records a won battle there, and adds
/// the reward card, when there is one, to the deck exactly once; the run is
/// won exactly when the node has no successor, and otherwise moves on to the
/// first one with its status kept. The rosters and supports stay.
pub proof fn lemma_victory_progress(
    run: CampaignRunView,
    node: CampaignNodeDefinition,
    encounter: CampaignEncounterDefinition,
    reward: Option<Seq<char>>,
    updated: i64,
)
    ensures
        ({
            let after = after_victory(run, node, encounter, reward, updated);
            &&& after.completed_node_ids == run.completed_node_ids.push(node.id@)
            &&& after.battle_history.len() == run.battle_history.len() + 1
            &&& after.battle_history.last().won && after.battle_history.last().node_id == node.id@
            &&& (after.status == CampaignRunStatus::Won) == (node.next_node_ids@.len() == 0
                || run.status == CampaignRunStatus::Won)
            &&& node.next_node_ids@.len() > 0 ==> after.current_node_id == node.next_node_ids@[0]@
                && after.status == run.status
            &&& node.next_node_ids@.len() == 0 ==> after.status == CampaignRunStatus::Won
            &&& after.supports == run.supports && after.id == run.id
            &&& after.player_deck.magical_girl_roster == run.player_deck.magical_girl_roster
            &&& after.player_deck.baddie_roster == run.player_deck.baddie_roster
            &&& forall|c: Seq<char>| #[trigger] count_of(after.player_deck.story_cards, c) == count_of(
                run.player_deck.story_cards,
                c,
            ) + if reward == Some(c) {
                1nat
            } else {
                0nat
            }
        }),
{
    assert forall|c: Seq<char>| #[trigger] count_of(after_victory(run, node, encounter, reward, updated).player_deck.story_cards, c)
        == count_of(run.player_deck.story_cards, c) + if reward == Some(c) {
        1nat
    } else {
        0nat
    } by {
        if let Some(r) = reward {
            lemma_count_push(run.player_deck.story_cards, r, c);
        }
    }
}

/// A lost battle records a lost battle at its node and loses the run,
/// leaving its progress, deck and supports as they were.
pub proof fn lemma_defeat_loses_run(
    run: CampaignRunView,
    node: CampaignNodeDefinition,
    encounter: CampaignEncounterDefinition,
    updated: i64,
)
    ensures
        ({
            let after = after_defeat(run, node, encounter, updated);
            &&& after.status == CampaignRunStatus::Lost
            &&& after.battle_history == run.battle_history.push(
                (BattleRecordView { node_id: node.id@, encounter_id: encounter.id@, won: false }),
            )
            &&& after.completed_node_ids == run.completed_node_ids
            &&& after.current_node_id == run.current_node_id
            &&& after.player_deck == run.player_deck && after.supports == run.supports && after.id == run.id
        }),
{
}

/// Toggling the same support twice gives back the supports chosen before
/// (at most two, none twice),
/// as a set of the same size (a support toggled off and on again comes
/// last), and exactly when it was not chosen before; the second toggle is
/// always allowed after the first.
pub proof fn lemma_toggle_support_twice(run: CampaignRunView, id: Seq<char>)
    requires
        toggle_allowed(run, id),
        run.supports.no_duplicates(),
        run.supports.len() <= 2,
    ensures
        toggle_allowed(CampaignRunView { supports: toggled_supports(run.supports, id)->0, ..run }, id),
        toggled_supports(toggled_supports(run.supports, id)->0, id) matches Some(twice) && twice.len()
            == run.supports.len() && twice.to_set() == run.supports.to_set() && (!run.supports.contains(id)
            ==> twice == run.supports),
{
    let s = run.supports;
    let once = toggled_supports(s, id)->0;
    lemma_find_index(s, is_text(id));
    match find_index(s, is_text(id)) {
        Some(k) => {
            assert(once == s.remove(k));
            assert forall|j: int| 0 <= j < once.len() implies !(#[trigger] is_text(id)(once[j])) by {
                if j < k {
                    assert(once[j] == s[j]);
                } else {
                    assert(once[j] == s[j + 1]);
                }
            }
            lemma_find_index_none(once, is_text(id));
            let twice = once.push(id);
            assert(toggled_supports(once, id) == Some(twice));
            assert forall|x: Seq<char>| twice.to_set().contains(x) == s.to_set().contains(x) by {
                if s.contains(x) {
                    let m = choose|m: int| 0 <= m < s.len() && s[m] == x;
                    if m < k {
                        assert(twice[m] == x);
                    } else if m > k {
                        assert(twice[m - 1] == x);
                    } else {
                        assert(twice[twice.len() - 1] == x);
                    }
                }
                if twice.contains(x) {
                    let m = choose|m: int| 0 <= m < twice.len() && twice[m] == x;
                    if m < k {
                        assert(s[m] == x);
                    } else if m < once.len() {
                        assert(s[m + 1] == x);
                    } else {
                        assert(s[k] == x);
                    }
                }
            }
            assert(twice.to_set() =~= s.to_set());
        },
        None => {
            assert(once == s.push(id));
            lemma_find_index_at(once, is_text(id), s.len() as int);
            assert(once.remove(s.len() as int) =~= s);
            assert(run.player_deck.magical_girl_roster.contains(id));
        },
    }
}

// ---------------------------------------------------------------------------
// Helpers
// ---------------------------------------------------------------------------

proof fn lemma_run_views_update()
    ensures
        forall|v: Seq<CampaignRunSave>, i: int, x: CampaignRunSave|
            0 <= i < v.len() ==> #[trigger] run_views(v.update(i, x)) == run_views(v).update(i, x@),
{
    assert forall|v: Seq<CampaignRunSave>, i: int, x: CampaignRunSave| 0 <= i < v.len() implies #[trigger] run_views(
        v.update(i, x),
    ) == run_views(v).update(i, x@) by {
        assert(run_views(v.update(i, x)) =~= run_views(v).update(i, x@));
    }
}

/// A copy of a list of battle records.
fn copy_records(v: &Vec<CampaignBattleRecord>) -> (res: Vec<CampaignBattleRecord>)
    ensures
        record_views(res@) == record_views(v@),
{
    let mut res: Vec<CampaignBattleRecord> = Vec::new();
    let mut i: usize = 0;
    while i < v.len()
        invariant
            i <= v.len(),
            record_views(res@) == record_views(v@.take(i as int)),
        decreases v.len() - i,
    {
        let r = CampaignBattleRecord {
            node_id: v[i].node_id.clone(),
            encounter_id: v[i].encounter_id.clone(),
            won: v[i].won,
        };
        let ghost before = record_views(res@);
        res.push(r);
        assert(record_views(res@) =~= before.push(v@[i as int]@));
        assert(record_views(v@.take(i + 1)) =~= record_views(v@.take(i as int)).push(v@[i as int]@));
        i = i + 1;
    }
    assert(v@.take(v.len() as int) =~= v@);
    res
}

impl CampaignRunSave {
    /// A copy with the same content.
    pub fn copy(&self) -> (res: CampaignRunSave)
        ensures
            res@ == self@,
    {
        CampaignRunSave {
            id: self.id.clone(),
            name: self.name.clone(),
            campaign_id: self.campaign_id.clone(),
            status: self.status,
            current_node_id: self.current_node_id.clone(),
            completed_node_ids: copy_strings(&self.completed_node_ids),
            player_deck: self.player_deck.copy(),
            selected_magical_girl_support_ids: copy_strings(&self.selected_magical_girl_support_ids),
            battle_history: copy_records(&self.battle_history),
            created_at_unix: self.created_at_unix,
            updated_at_unix: self.updated_at_unix,
        }
    }
}

impl Default for CampaignSaveBundle {
    fn default() -> (r: Self)
        ensures
            r@.version == 2,
            r@.runs.len() == 0,
            r@.selected is None,
    {
        let r = CampaignSaveBundle { version: 2, runs: Vec::new(), selected_run_id: None };
        assert(r@.runs =~= Seq::<CampaignRunView>::empty());
        r
    }
}

impl CampaignSaveBundle {
    /// Position of the first run with the id `run_id`.
    fn position_of_run(&self, run_id: &str) -> (res: Option<usize>)
        ensures
            match res {
                Some(i) => i < self.runs@.len() && find_index(self@.runs, run_has_id(run_id@)) == Some(i as int),
                None => find_index(self@.runs, run_has_id(run_id@)) is None,
            },
    {
        let mut i: usize = 0;
        while i < self.runs.len()
            invariant
                i <= self.runs.len(),
                forall|j: int| 0 <= j < i ==> !(#[trigger] run_has_id(run_id@)(self@.runs[j])),
            decreases self.runs.len() - i,
        {
            assert(self@.runs[i as int] == self.runs@[i as int]@);
            if text_eq(self.runs[i].id.as_str(), run_id) {
                proof {
                    lemma_find_index_at(self@.runs, run_has_id(run_id@), i as int);
                }
                return Some(i);
            }
            i = i + 1;
        }
        proof {
            lemma_find_index_none(self@.runs, run_has_id(run_id@));
        }
        None
    }

    /// The id the selection resolves to.
    fn selection_target_id(&self) -> (res: Option<String>)
        ensures
            match res {
                Some(s) => selection_target(self@) == Some(s@),
                None => selection_target(self@) is None,
            },
    {
        if let Some(id) = &self.selected_run_id {
            return Some(id.clone());
        }
        let mut i = self.runs.len();
        while i > 0
            invariant
                i <= self.runs.len(),
                self.selected_run_id is None,
                forall|j: int| i <= j < self.runs.len() ==> !(#[trigger] run_in_progress()(self@.runs[j])),
            decreases i,
        {
            assert(self@.runs[i - 1] == self.runs@[i - 1]@);
            if self.runs[i - 1].status == CampaignRunStatus::InProgress {
                proof {
                    lemma_find_last_index_at(self@.runs, run_in_progress(), i - 1);
                }
                return Some(self.runs[i - 1].id.clone());
            }
            i = i - 1;
        }
        proof {
            lemma_find_last_index_none(self@.runs, run_in_progress());
        }
        if self.runs.len() > 0 {
            assert(self@.runs.last() == self.runs@[self.runs.len() - 1]@);
            Some(self.runs[self.runs.len() - 1].id.clone())
        } else {
            None
        }
    }

    /// Position of the selected run.
    fn selected_position(&self) -> (res: Option<usize>)
        ensures
            match res {
                Some(i) => i < self.runs@.len() && selected_run_index(self@) == Some(i as int),
                None => selected_run_index(self@) is None,
            },
    {
        match self.selection_target_id() {
            Some(id) => self.position_of_run(id.as_str()),
            None => None,
        }
    }

    /// Puts `run` at position `i`.
    fn put_run(&mut self, i: usize, run: CampaignRunSave)
        requires
            i < old(self).runs.len(),
        ensures
            final(self)@ == (CampaignBundleView { runs: old(self)@.runs.update(i as int, run@), ..old(self)@ }),
            final(self).runs.len() == old(self).runs.len(),
    {
        proof {
            lemma_run_views_update();
        }
        self.runs.set(i, run);
    }

    /// Starts a run of `campaign` at its first node with a copy of
    /// `source_deck`, selects it and returns its id; `None` (and no change)
    /// when the campaign has no nodes.
    pub fn create_run(&mut self, campaign: &CampaignDefinition, source_deck: &DeckPreset, default_name: &str) -> (res:
        Option<String>)
        ensures
            campaign.nodes@.len() == 0 ==> res is None && final(self)@ == old(self)@,
            campaign.nodes@.len() > 0 ==> (res matches Some(id) && run_created(
                old(self)@,
                final(self)@,
                id@,
                *campaign,
                source_deck@,
                default_name@,
            )),
    {
        let first_node = match campaign.first_node() {
            Some(n) => n,
            None => {
                return None;
            },
        };
        let mut run_id = owned("campaign_run_");
        let digits = decimal_string(self.runs.len() as u128 + 1);
        append_text(&mut run_id, digits.as_str());
        let now = current_unix_timestamp();
        let trimmed = trim(source_deck.name.as_str());
        let run_name = if trimmed.as_str().is_empty() {
            owned(default_name)
        } else {
            let mut n = source_deck.name.clone();
            append_text(&mut n, " Run");
            n
        };
        let run = CampaignRunSave {
            id: run_id.clone(),
            name: run_name,
            campaign_id: campaign.id.clone(),
            status: CampaignRunStatus::InProgress,
            current_node_id: first_node.id.clone(),
            completed_node_ids: Vec::new(),
            player_deck: source_deck.copy(),
            selected_magical_girl_support_ids: Vec::new(),
            battle_history: Vec::new(),
            created_at_unix: now,
            updated_at_unix: now,
        };
        assert(run@.completed_node_ids =~= Seq::<Seq<char>>::empty());
        assert(run@.supports =~= Seq::<Seq<char>>::empty());
        assert(run@.battle_history =~= Seq::<BattleRecordView>::empty());
        self.runs.push(run);
        self.selected_run_id = Some(run_id.clone());
        assert(self@.runs =~= old(self)@.runs.push(run@));
        Some(run_id)
    }

    /// The selected run: the one with the selected id, or else the latest
    /// run in progress, or else the latest run.
    pub fn selected_run(&self) -> (res: Option<&CampaignRunSave>)
        ensures
            match res {
                Some(r) => selected_run_of(self@) == Some(r@),
                None => selected_run_of(self@) is None,
            },
    {
        match self.selected_position() {
            Some(i) => Some(&self.runs[i]),
            None => None,
        }
    }

    /// The selected run, to change in place.
    pub fn selected_run_mut(&mut self) -> (res: Option<&mut CampaignRunSave>)
        ensures
            selected_run_index(old(self)@) is None ==> res is None && final(self)@ == old(self)@,
            selected_run_index(old(self)@) is Some ==> res is Some,
            forall|r: &mut CampaignRunSave|
                res == Some(r) ==> run_edit_in_place(old(self)@, final(self)@, (*r)@, (*final(r))@),
    {
        match self.selected_position() {
            Some(i) => {
                proof {
                    lemma_run_views_update();
                }
                Some(&mut self.runs[i])
            },
            None => None,
        }
    }

    /// Selects the run with the id `run_id`; `false` (and no change) when
    /// there is none.
    pub fn select_run(&mut self, run_id: &str) -> (res: bool)
        ensures
            res == find_index(old(self)@.runs, run_has_id(run_id@)) is Some,
            res ==> final(self)@ == (CampaignBundleView { selected: Some(run_id@), ..old(self)@ }),
            !res ==> final(self)@ == old(self)@,
    {
        match self.position_of_run(run_id) {
            Some(_) => {
                self.selected_run_id = Some(owned(run_id));
                true
            },
            None => false,
        }
    }

    /// Whether the selected run is in progress.
    pub fn selected_run_is_in_progress(&self) -> (res: bool)
        ensures
            res == (selected_run_of(self@) matches Some(r) && r.status == CampaignRunStatus::InProgress),
    {
        match self.selected_run() {
            Some(run) => run.status == CampaignRunStatus::InProgress,
            None => false,
        }
    }

    /// Whether the selected run has two supports chosen.
    pub fn selected_run_has_valid_support_pair(&self) -> (res: bool)
        ensures
            res == (selected_run_of(self@) matches Some(r) && r.supports.len() == 2),
    {
        match self.selected_run() {
            Some(run) => run.selected_magical_girl_support_ids.len() == 2,
            None => false,
        }
    }

    /// Sets the selected run's two supports; `false` (and no change) when no
    /// run is selected or not exactly two ids are given.
    pub fn update_selected_magical_girl_supports(&mut self, support_ids: &[String]) -> (res: bool)
        ensures
            res == (selected_run_index(old(self)@) is Some && support_ids@.len() == 2),
            !res ==> final(self)@ == old(self)@,
            res ==> run_edited_at(old(self)@, final(self)@, selected_run_index(old(self)@)->0) && run_touched(
                (CampaignRunView {
                    supports: views(support_ids@),
                    ..old(self)@.runs[selected_run_index(old(self)@)->0]
                }),
                final(self)@.runs[selected_run_index(old(self)@)->0],
            ),
    {
        let i = match self.selected_position() {
            Some(i) => i,
            None => {
                return false;
            },
        };
        if support_ids.len() != 2 {
            return false;
        }
        let mut run = self.runs[i].copy();
        run.selected_magical_girl_support_ids = crate::seqs::copy_slice(support_ids);
        run.updated_at_unix = current_unix_timestamp();
        self.put_run(i, run);
        true
    }

    /// Adds `character_id` to the selected run's supports, or removes it when
    /// chosen; `false` (and no change) when no run is selected, the id is the
    /// run's main or not in its roster, or two supports are already chosen.
    pub fn toggle_selected_magical_girl_support(&mut self, character_id: &str) -> (res: bool)
        ensures
            res == (selected_run_of(old(self)@) matches Some(r) && toggle_allowed(r, character_id@)),
            !res ==> final(self)@ == old(self)@,
            res ==> run_edited_at(old(self)@, final(self)@, selected_run_index(old(self)@)->0) && run_touched(
                (CampaignRunView {
                    supports: toggled_supports(
                        old(self)@.runs[selected_run_index(old(self)@)->0].supports,
                        character_id@,
                    )->0,
                    ..old(self)@.runs[selected_run_index(old(self)@)->0]
                }),
                final(self)@.runs[selected_run_index(old(self)@)->0],
            ),
    {
        let i = match self.selected_position() {
            Some(i) => i,
            None => {
                return false;
            },
        };
        let mut run = self.runs[i].copy();
        let roster = &run.player_deck.magical_girl_roster;
        if roster.len() > 0 && text_eq(roster[0].as_str(), character_id) {
            return false;
        }
        if !crate::seqs::contains_text_entry(roster, character_id) {
            return false;
        }
        let ghost supports = views(run.selected_magical_girl_support_ids@);
        match position_of_text(&run.selected_magical_girl_support_ids, character_id) {
            Some(index) => {
                run.selected_magical_girl_support_ids.remove(index);
                assert(views(run.selected_magical_girl_support_ids@) =~= supports.remove(index as int));
            },
            None => {
                if run.selected_magical_girl_support_ids.len() < 2 {
                    run.selected_magical_girl_support_ids.push(owned(character_id));
                    assert(views(run.selected_magical_girl_support_ids@) =~= supports.push(character_id@));
                } else {
                    return false;
                }
            },
        }
        run.updated_at_unix = current_unix_timestamp();
        self.put_run(i, run);
        true
    }

    /// The first run with the id `run_id`.
    pub fn run_by_id(&self, run_id: &str) -> (res: Option<&CampaignRunSave>)
        ensures
            match res {
                Some(r) => find_first(self@.runs, run_has_id(run_id@)) == Some(r@),
                None => find_first(self@.runs, run_has_id(run_id@)) is None,
            },
    {
        match self.position_of_run(run_id) {
            Some(i) => Some(&self.runs[i]),
            None => None,
        }
    }

    /// Marks the selected run as lost; `false` (and no change) when no run
    /// is selected.
    pub fn abandon_selected_run(&mut self) -> (res: bool)
        ensures
            res == selected_run_index(old(self)@) is Some,
            !res ==> final(self)@ == old(self)@,
            res ==> run_edited_at(old(self)@, final(self)@, selected_run_index(old(self)@)->0) && run_touched(
                (CampaignRunView {
                    status: CampaignRunStatus::Lost,
                    ..old(self)@.runs[selected_run_index(old(self)@)->0]
                }),
                final(self)@.runs[selected_run_index(old(self)@)->0],
            ),
    {
        let i = match self.selected_position() {
            Some(i) => i,
            None => {
                return false;
            },
        };
        let mut run = self.runs[i].copy();
        run.status = CampaignRunStatus::Lost;
        run.updated_at_unix = current_unix_timestamp();
        self.put_run(i, run);
        true
    }

    /// Records a won battle at `node_id` for the run `run_id`: the node is
    /// completed, the reward card (if any) joins the deck, and the run moves
    /// to the node's first successor. Returns whether the campaign is now won
    /// (the node had no successor); `None` (and no change) when the run, the
    /// node or its encounter is unknown.
    pub fn record_victory_for_run(
        &mut self,
        run_id: &str,
        campaign: &CampaignDefinition,
        node_id: &str,
        reward_card_id: Option<&str>,
    ) -> (res: Option<bool>)
        ensures
            match (find_index(old(self)@.runs, run_has_id(run_id@)), battle_site(*campaign, node_id@)) {
                (Some(i), Some((n, e))) => res == Some(n.next_node_ids@.len() == 0) && run_edited_at(
                    old(self)@,
                    final(self)@,
                    i,
                ) && final(self)@.runs[i] == after_victory(
                    old(self)@.runs[i],
                    n,
                    e,
                    match reward_card_id {
                        Some(c) => Some(c@),
                        None => None,
                    },
                    final(self)@.runs[i].updated_at_unix,
                ),
                _ => res is None && final(self)@ == old(self)@,
            },
    {
        let i = match self.position_of_run(run_id) {
            Some(i) => i,
            None => {
                return None;
            },
        };
        let node = match campaign.node(node_id) {
            Some(n) => n,
            None => {
                return None;
            },
        };
        let encounter = match campaign.encounter(node.encounter_id.as_str()) {
            Some(e) => e,
            None => {
                return None;
            },
        };
        let mut run = self.runs[i].copy();
        let ghost start = run@;
        let ghost completed = views(run.completed_node_ids@);
        run.completed_node_ids.push(node.id.clone());
        assert(views(run.completed_node_ids@) =~= completed.push(node.id@));
        if let Some(card_id) = reward_card_id {
            let ghost cards = views(run.player_deck.story_cards@);
            let ghost recent = views(run.player_deck.recent_story_cards@);
            run.player_deck.story_cards.push(owned(card_id));
            run.player_deck.recent_story_cards.push(owned(card_id));
            assert(views(run.player_deck.story_cards@) =~= cards.push(card_id@));
            assert(views(run.player_deck.recent_story_cards@) =~= recent.push(card_id@));
            if run.player_deck.recent_story_cards.len() > 5 {
                let ghost full = views(run.player_deck.recent_story_cards@);
                run.player_deck.recent_story_cards.remove(0);
                assert(views(run.player_deck.recent_story_cards@) =~= full.drop_first());
            }
        }
        let ghost history = record_views(run.battle_history@);
        let record = CampaignBattleRecord { node_id: node.id.clone(), encounter_id: encounter.id.clone(), won: true };
        run.battle_history.push(record);
        assert(record_views(run.battle_history@) =~= history.push(record@));
        run.updated_at_unix = current_unix_timestamp();
        let finished = node.next_node_ids.len() == 0;
        if !finished {
            run.current_node_id = node.next_node_ids[0].clone();
        } else {
            run.status = CampaignRunStatus::Won;
        }
        self.put_run(i, run);
        Some(finished)
    }

    /// Records a lost battle at `node_id` for the run `run_id` and marks the
    /// run lost; `false` (and no change) when the run, the node or its
    /// encounter is unknown.
    pub fn record_defeat_for_run(&mut self, run_id: &str, campaign: &CampaignDefinition, node_id: &str) -> (res:
        bool)
        ensures
            match (find_index(old(self)@.runs, run_has_id(run_id@)), battle_site(*campaign, node_id@)) {
                (Some(i), Some((n, e))) => res && run_edited_at(old(self)@, final(self)@, i) && final(self)@.runs[i]
                    == after_defeat(old(self)@.runs[i], n, e, final(self)@.runs[i].updated_at_unix),
                _ => !res && final(self)@ == old(self)@,
            },
    {
        let i = match self.position_of_run(run_id) {
            Some(i) => i,
            None => {
                return false;
            },
        };
        let node = match campaign.node(node_id) {
            Some(n) => n,
            None => {
                return false;
            },
        };
        let encounter = match campaign.encounter(node.encounter_id.as_str()) {
            Some(e) => e,
            None => {
                return false;
            },
        };
        let mut run = self.runs[i].copy();
        let ghost history = record_views(run.battle_history@);
        let record = CampaignBattleRecord { node_id: node.id.clone(), encounter_id: encounter.id.clone(), won: false };
        run.battle_history.push(record);
        assert(record_views(run.battle_history@) =~= history.push(record@));
        run.status = CampaignRunStatus::Lost;
        run.updated_at_unix = current_unix_timestamp();
        self.put_run(i, run);
        true
    }
}

} // verus!
