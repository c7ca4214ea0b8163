//! Game content definitions: story cards, characters, starter loadouts,
//! deck rules and the campaign graph, as plain values.

use vstd::prelude::*;

use crate::seqs::{find_first, find_index, lemma_find_index_at, lemma_find_index_none};
use crate::text::text_eq;

verus! {

/// When a story card may be played.
#[derive(Clone, Copy, Debug, PartialEq, Eq, Structural)]
pub enum CardSpeed {
    DailyLife,
    Reaction,
    Encounter,
}

/// Which side a story card belongs to.
#[derive(Clone, Copy, Debug, PartialEq, Eq, Structural)]
pub enum CardAlignment {
    MagicalGirl,
    Baddie,
    Neutral,
}

/// One effect of a story card.
#[derive(Clone, Copy, Debug, PartialEq, Eq, Structural)]
pub enum CardEffect {
    GainMainRadiance { amount: i32 },
    GainRevealedSupportRadiance { amount: i32 },
    ReduceOpponentMainRadiance { amount: i32 },
    GainPrimeDread { amount: i32 },
    GainRevealedSupportDread { amount: i32 },
    ReduceOpponentPrimeDread { amount: i32 },
    GainMainPowerThisEncounter { amount: i32 },
    GainMainPowerNextEncounter { amount: i32 },
    ReduceOpponentMainPowerThisEncounter { amount: i32 },
    GainPrimePowerThisEncounter { amount: i32 },
    GainRevealedSupportPowerThisEncounter { amount: i32 },
    GainFirstRevealedSupportRadiance { amount: i32 },
    ExhaustFirstRevealedOpponentSupport,
    RevealFirstHiddenOwnSupport,
}

/// A story (support) card.
#[derive(Clone, Debug)]
pub struct StoryCardDefinition {
    pub id: String,
    pub name: String,
    pub card_type: String,
    pub speed: CardSpeed,
    pub alignment: CardAlignment,
    pub playable_in_daily_life: bool,
    pub effects: Vec<CardEffect>,
}

/// A magical girl or baddie character.
#[derive(Clone, Debug)]
pub struct CharacterDefinition {
    pub id: String,
    pub name: String,
    pub base_power: i32,
    pub transformed_power: i32,
    pub final_power: i32,
    pub first_threshold: i32,
    pub second_threshold: i32,
}

/// Support-deck construction rules.
#[derive(Clone, Copy, Debug, PartialEq, Eq, Structural)]
pub struct DeckRules {
    pub support_deck_size: usize,
    pub max_copies_per_story_card: usize,
    pub universal_copy_limit: bool,
}

/// Match rules carried into the runtime state.
#[derive(Clone, Copy, Debug, PartialEq, Eq, Structural)]
pub struct MatchRules {
    pub hand_limit: usize,
}

/// A ready-made pair of rosters with a support deck.
#[derive(Clone, Debug)]
pub struct StarterLoadout {
    pub id: String,
    pub name: String,
    pub description: String,
    pub playstyle: String,
    pub magical_girl_main: String,
    pub magical_girl_supports: Vec<String>,
    pub prime_baddie: String,
    pub baddie_supports: Vec<String>,
    pub support_deck: Vec<String>,
}

/// One step of a campaign.
#[derive(Clone, Debug)]
pub struct CampaignNodeDefinition {
    pub id: String,
    pub encounter_id: String,
    pub next_node_ids: Vec<String>,
    pub boss: bool,
}

/// A battle fought at a campaign node.
#[derive(Clone, Debug)]
pub struct CampaignEncounterDefinition {
    pub id: String,
    pub name: String,
    pub enemy_loadout_id: String,
    pub intro_text: String,
    pub reward_story_card_ids: Vec<String>,
    pub boss: bool,
}

/// A campaign: its nodes (the first is the start) and encounters.
#[derive(Clone, Debug)]
pub struct CampaignDefinition {
    pub id: String,
    pub name: String,
    pub description: String,
    pub nodes: Vec<CampaignNodeDefinition>,
    pub encounters: Vec<CampaignEncounterDefinition>,
}

/// All game content.
#[derive(Clone, Debug)]
pub struct GameContent {
    pub magical_girls: Vec<CharacterDefinition>,
    pub baddies: Vec<CharacterDefinition>,
    pub story_cards: Vec<StoryCardDefinition>,
    pub deck_rules: DeckRules,
    pub rules: MatchRules,
    pub starter_loadouts: Vec<StarterLoadout>,
    pub campaign: CampaignDefinition,
}

/// The node has the id `id`.
pub open spec fn node_has_id(id: Seq<char>) -> spec_fn(CampaignNodeDefinition) -> bool {
    |n: CampaignNodeDefinition| n.id@ == id
}

/// The encounter has the id `id`.
pub open spec fn encounter_has_id(id: Seq<char>) -> spec_fn(CampaignEncounterDefinition) -> bool {
    |e: CampaignEncounterDefinition| e.id@ == id
}

/// The story card has the id `id`.
pub open spec fn card_has_id(id: Seq<char>) -> spec_fn(StoryCardDefinition) -> bool {
    |c: StoryCardDefinition| c.id@ == id
}

/// The character has the id `id`.
pub open spec fn character_has_id(id: Seq<char>) -> spec_fn(CharacterDefinition) -> bool {
    |c: CharacterDefinition| c.id@ == id
}

impl CampaignDefinition {
    /// The starting node: the first one listed.
    pub fn first_node(&self) -> (res: Option<&CampaignNodeDefinition>)
        ensures
            match res {
                Some(n) => self.nodes@.len() > 0 && *n == self.nodes@[0],
                None => self.nodes@.len() == 0,
            },
    {
        if self.nodes.len() > 0 {
            Some(&self.nodes[0])
        } else {
            None
        }
    }

    /// The first node with the id `node_id`.
    pub fn node(&self, node_id: &str) -> (res: Option<&CampaignNodeDefinition>)
        ensures
            match res {
                Some(n) => find_first(self.nodes@, node_has_id(node_id@)) == Some(*n),
                None => find_first(self.nodes@, node_has_id(node_id@)) is None,
            },
    {
        let mut i: usize = 0;
        while i < self.nodes.len()
            invariant
                i <= self.nodes.len(),
                forall|j: int| 0 <= j < i ==> !(#[trigger] node_has_id(node_id@)(self.nodes@[j])),
            decreases self.nodes.len() - i,
        {
            if text_eq(self.nodes[i].id.as_str(), node_id) {
                proof {
                    lemma_find_index_at(self.nodes@, node_has_id(node_id@), i as int);
                }
                return Some(&self.nodes[i]);
            }
            i = i + 1;
        }
        proof {
            lemma_find_index_none(self.nodes@, node_has_id(node_id@));
        }
        None
    }

    /// The first encounter with the id `encounter_id`.
    pub fn encounter(&self, encounter_id: &str) -> (res: Option<&CampaignEncounterDefinition>)
        ensures
            match res {
                Some(e) => find_first(self.encounters@, encounter_has_id(encounter_id@)) == Some(*e),
                None => find_first(self.encounters@, encounter_has_id(encounter_id@)) is None,
            },
    {
        let mut i: usize = 0;
        while i < self.encounters.len()
            invariant
                i <= self.encounters.len(),
                forall|j: int|
                    0 <= j < i ==> !(#[trigger] encounter_has_id(encounter_id@)(self.encounters@[j])),
            decreases self.encounters.len() - i,
        {
            if text_eq(self.encounters[i].id.as_str(), encounter_id) {
                proof {
                    lemma_find_index_at(self.encounters@, encounter_has_id(encounter_id@), i as int);
                }
                return Some(&self.encounters[i]);
            }
            i = i + 1;
        }
        proof {
            lemma_find_index_none(self.encounters@, encounter_has_id(encounter_id@));
        }
        None
    }
}

impl Default for DeckRules {
    fn default() -> (r: Self)
        ensures
            r.support_deck_size == 0,
            r.max_copies_per_story_card == 0,
            !r.universal_copy_limit,
    {
        DeckRules { support_deck_size: 0, max_copies_per_story_card: 0, universal_copy_limit: false }
    }
}

impl Default for MatchRules {
    fn default() -> (r: Self)
        ensures
            r.hand_limit == 0,
    {
        MatchRules { hand_limit: 0 }
    }
}

impl Default for CampaignDefinition {
    fn default() -> (r: Self)
        ensures
            r.id@.len() == 0,
            r.nodes@.len() == 0,
            r.encounters@.len() == 0,
    {
        CampaignDefinition {
            id: String::new(),
            name: String::new(),
            description: String::new(),
            nodes: Vec::new(),
            encounters: Vec::new(),
        }
    }
}

impl Default for GameContent {
    fn default() -> (r: Self)
        ensures
            r.magical_girls@.len() == 0,
            r.baddies@.len() == 0,
            r.story_cards@.len() == 0,
            r.starter_loadouts@.len() == 0,
            r.deck_rules.support_deck_size == 0,
            r.deck_rules.max_copies_per_story_card == 0,
            r.rules.hand_limit == 0,
            r.campaign.nodes@.len() == 0,
    {
        GameContent {
            magical_girls: Vec::new(),
            baddies: Vec::new(),
            story_cards: Vec::new(),
            deck_rules: DeckRules::default(),
            rules: MatchRules::default(),
            starter_loadouts: Vec::new(),
            campaign: CampaignDefinition::default(),
        }
    }
}

/// Position of the first story card with the id `id`.
pub fn card_position(cards: &Vec<StoryCardDefinition>, id: &str) -> (res: Option<usize>)
    ensures
        match res {
            Some(i) => i < cards@.len() && find_index(cards@, card_has_id(id@)) == Some(i as int),
            None => find_index(cards@, card_has_id(id@)) is None,
        },
{
    let mut i: usize = 0;
    while i < cards.len()
        invariant
            i <= cards.len(),
            forall|j: int| 0 <= j < i ==> !(#[trigger] card_has_id(id@)(cards@[j])),
        decreases cards.len() - i,
    {
        if text_eq(cards[i].id.as_str(), id) {
            proof {
                lemma_find_index_at(cards@, card_has_id(id@), i as int);
            }
            return Some(i);
        }
        i = i + 1;
    }
    proof {
        lemma_find_index_none(cards@, card_has_id(id@));
    }
    None
}

/// Position of the first character with the id `id`.
pub fn character_position(definitions: &Vec<CharacterDefinition>, id: &str) -> (res: Option<usize>)
    ensures
        match res {
            Some(i) => i < definitions@.len() && find_index(definitions@, character_has_id(id@)) == Some(i as int),
            None => find_index(definitions@, character_has_id(id@)) is None,
        },
{
    let mut i: usize = 0;
    while i < definitions.len()
        invariant
            i <= definitions.len(),
            forall|j: int| 0 <= j < i ==> !(#[trigger] character_has_id(id@)(definitions@[j])),
        decreases definitions.len() - i,
    {
        if text_eq(definitions[i].id.as_str(), id) {
            proof {
                lemma_find_index_at(definitions@, character_has_id(id@), i as int);
            }
            return Some(i);
        }
        i = i + 1;
    }
    proof {
        lemma_find_index_none(definitions@, character_has_id(id@));
    }
    None
}

/// An owned copy of a list of card effects.
fn copy_effects(v: &Vec<CardEffect>) -> (res: Vec<CardEffect>)
    ensures
        res@ == v@,
{
    let mut res: Vec<CardEffect> = Vec::new();
    let mut i: usize = 0;
    while i < v.len()
        invariant
            i <= v.len(),
            res@ == v@.take(i as int),
        decreases v.len() - i,
    {
        res.push(v[i]);
        assert(res@ =~= v@.take(i + 1));
        i = i + 1;
    }
    assert(v@.take(v.len() as int) =~= v@);
    res
}

/// Two story cards hold the same fields.
pub open spec fn same_card(a: StoryCardDefinition, b: StoryCardDefinition) -> bool {
    &&& a.id == b.id
    &&& a.name == b.name
    &&& a.card_type == b.card_type
    &&& a.speed == b.speed
    &&& a.alignment == b.alignment
    &&& a.playable_in_daily_life == b.playable_in_daily_life
    &&& a.effects@ == b.effects@
}

/// Two lists of story cards hold the same cards in the same order.
pub open spec fn same_cards(a: Seq<StoryCardDefinition>, b: Seq<StoryCardDefinition>) -> bool {
    &&& a.len() == b.len()
    &&& forall|i: int| 0 <= i < a.len() ==> same_card(#[trigger] a[i], b[i])
}

impl StoryCardDefinition {
    /// A copy with the same fields.
    pub fn copy(&self) -> (res: StoryCardDefinition)
        ensures
            same_card(res, *self),
    {
        let effects = copy_effects(&self.effects);
        StoryCardDefinition {
            id: self.id.clone(),
            name: self.name.clone(),
            card_type: self.card_type.clone(),
            speed: self.speed,
            alignment: self.alignment,
            playable_in_daily_life: self.playable_in_daily_life,
            effects,
        }
    }
}

/// No card after position `i` has the id of the card at `i`.
pub open spec fn last_of_id(cards: Seq<StoryCardDefinition>, i: int) -> bool {
    forall|j: int| i < j < cards.len() ==> (#[trigger] cards[j]).id@ != cards[i].id@
}

/// The cards among the first `k` that no later card shares an id with, in order.
pub open spec fn last_cards_upto(cards: Seq<StoryCardDefinition>, k: int) -> Seq<StoryCardDefinition>
    decreases k,
{
    if k <= 0 {
        Seq::empty()
    } else {
        last_cards_upto(cards, k - 1) + if last_of_id(cards, k - 1) {
            seq![cards[k - 1]]
        } else {
            Seq::empty()
        }
    }
}

/// One card per id, the last listed with that id, in the order they are listed.
pub open spec fn last_cards(cards: Seq<StoryCardDefinition>) -> Seq<StoryCardDefinition> {
    last_cards_upto(cards, cards.len() as int)
}

/// The story cards keyed by id: for each id, a copy of the last card listed
/// with it, in the order the kept cards are listed.
pub fn story_cards_by_id(v: &Vec<StoryCardDefinition>) -> (res: Vec<StoryCardDefinition>)
    ensures
        same_cards(res@, last_cards(v@)),
{
    let mut res: Vec<StoryCardDefinition> = Vec::new();
    let mut i: usize = 0;
    while i < v.len()
        invariant
            i <= v.len(),
            same_cards(res@, last_cards_upto(v@, i as int)),
        decreases v.len() - i,
    {
        let mut later = false;
        let mut j: usize = i + 1;
        while j < v.len()
            invariant
                i < j <= v.len(),
                !later ==> forall|m: int| i < m < j ==> (#[trigger] v@[m]).id@ != v@[i as int].id@,
                later ==> !last_of_id(v@, i as int),
            decreases v.len() - j,
        {
            if text_eq(v[j].id.as_str(), v[i].id.as_str()) {
                later = true;
            }
            j = j + 1;
        }
        let ghost before = last_cards_upto(v@, i as int);
        if !later {
            res.push(v[i].copy());
            assert(last_cards_upto(v@, i + 1) == before + seq![v@[i as int]]);
        } else {
            assert(last_cards_upto(v@, i + 1) =~= before);
        }
        i = i + 1;
    }
    res
}

} // verus!
