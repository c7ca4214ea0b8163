//! What the campaign hub shows: character and card names for a run's deck,
//! the supports chosen for the next encounter, and the roster entries that
//! can be chosen as supports.

use vstd::prelude::*;

use crate::campaigns::{selected_run_of, CampaignSaveBundle, CampaignRunSave};
use crate::data::{
    card_has_id, card_position, character_has_id, character_position, encounter_has_id, node_has_id,
    CampaignDefinition, CharacterDefinition, StoryCardDefinition,
};
use crate::seqs::{find_first, find_index, lemma_find_index, slice_has_text, views};
use crate::text::{append_text, owned};

verus! {

/// The parts joined with `sep` between each two.
pub open spec fn joined(parts: Seq<Seq<char>>, sep: Seq<char>) -> Seq<char>
    decreases parts.len(),
{
    if parts.len() == 0 {
        Seq::empty()
    } else if parts.len() == 1 {
        parts[0]
    } else {
        joined(parts.drop_last(), sep) + sep + parts.last()
    }
}

/// The name of the first character with the id, or the id itself.
pub open spec fn character_label(definitions: Seq<CharacterDefinition>, id: Seq<char>) -> Seq<char> {
    match find_first(definitions, character_has_id(id)) {
        Some(c) => c.name@,
        None => id,
    }
}

/// The name of the first story card with the id, or the id itself.
pub open spec fn card_label(definitions: Seq<StoryCardDefinition>, id: Seq<char>) -> Seq<char> {
    match find_first(definitions, card_has_id(id)) {
        Some(c) => c.name@,
        None => id,
    }
}

/// The characters of a roster by name, joined with ", ".
pub open spec fn roster_text(roster: Seq<Seq<char>>, definitions: Seq<CharacterDefinition>) -> Seq<char> {
    joined(roster.map_values(|id: Seq<char>| character_label(definitions, id)), ", "@)
}

/// The story cards by name, joined with ", ".
pub open spec fn cards_text(card_ids: Seq<Seq<char>>, definitions: Seq<StoryCardDefinition>) -> Seq<char> {
    joined(card_ids.map_values(|id: Seq<char>| card_label(definitions, id)), ", "@)
}

/// The characters named by the ids, in order, skipping unknown ids.
pub open spec fn known_characters(definitions: Seq<CharacterDefinition>, ids: Seq<Seq<char>>) -> Seq<CharacterDefinition>
    decreases ids.len(),
{
    if ids.len() == 0 {
        Seq::empty()
    } else {
        known_characters(definitions, ids.drop_last()) + match find_first(definitions, character_has_id(ids.last())) {
            Some(c) => seq![c],
            None => Seq::empty(),
        }
    }
}

/// A roster entry that can be chosen as a support.
#[derive(Clone, Debug)]
pub struct SupportChoice {
    /// Its place among the roster entries after the main, counting from 0.
    pub slot: usize,
    pub character_id: String,
    /// Whether it is among the run's chosen supports.
    pub selected: bool,
}

/// The content of a support choice.
pub struct SupportChoiceView {
    pub slot: int,
    pub character_id: Seq<char>,
    pub selected: bool,
}

impl View for SupportChoice {
    type V = SupportChoiceView;

    open spec fn view(&self) -> SupportChoiceView {
        SupportChoiceView { slot: self.slot as int, character_id: self.character_id@, selected: self.selected }
    }
}

/// The supports that can be chosen from the first `k` roster entries after
/// the main: those naming a known character, with their slot and whether
/// they are chosen.
pub open spec fn choices_upto(
    definitions: Seq<CharacterDefinition>,
    roster: Seq<Seq<char>>,
    chosen: Seq<Seq<char>>,
    k: int,
) -> Seq<SupportChoiceView>
    decreases k,
{
    if k <= 0 {
        Seq::empty()
    } else {
        let id = roster[k];
        choices_upto(definitions, roster, chosen, k - 1) + if find_index(definitions, character_has_id(id)) is Some {
            seq![SupportChoiceView { slot: k - 1, character_id: id, selected: chosen.contains(id) }]
        } else {
            Seq::empty()
        }
    }
}

/// The supports that can be chosen from a run's roster.
pub open spec fn support_choices_of(
    definitions: Seq<CharacterDefinition>,
    roster: Seq<Seq<char>>,
    chosen: Seq<Seq<char>>,
) -> Seq<SupportChoiceView> {
    choices_upto(definitions, roster, chosen, roster.len() - 1)
}

/// The first character with the id `character_id`.
pub fn lookup_character<'a>(definitions: &'a Vec<CharacterDefinition>, character_id: &str) -> (res: Option<
    &'a CharacterDefinition,
>)
    ensures
        match res {
            Some(c) => find_first(definitions@, character_has_id(character_id@)) == Some(*c),
            None => find_first(definitions@, character_has_id(character_id@)) is None,
        },
{
    match character_position(definitions, character_id) {
        Some(i) => Some(&definitions[i]),
        None => None,
    }
}

/// Appends `part` to a joined text of `i` parts.
fn join_step(out: &mut String, part: &str, i: usize, parts: Ghost<Seq<Seq<char>>>)
    requires
        0 <= i < parts@.len(),
        old(out)@ == joined(parts@.take(i as int), ", "@),
        part@ == parts@[i as int],
    ensures
        final(out)@ == joined(parts@.take(i + 1), ", "@),
{
    if i > 0 {
        append_text(out, ", ");
    }
    append_text(out, part);
    assert(parts@.take(i + 1).drop_last() =~= parts@.take(i as int));
    if i == 0 {
        assert(out@ =~= parts@[0]);
    }
}

/// The roster by character name, joined with ", "; an unknown id stands for itself.
pub fn format_character_roster(roster: &[String], definitions: &Vec<CharacterDefinition>) -> (res: String)
    ensures
        res@ == roster_text(views(roster@), definitions@),
{
    let ghost parts = views(roster@).map_values(|id: Seq<char>| character_label(definitions@, id));
    let mut out = String::new();
    let mut i: usize = 0;
    while i < roster.len()
        invariant
            parts == views(roster@).map_values(|id: Seq<char>| character_label(definitions@, id)),
            i <= roster@.len(),
            out@ == joined(parts.take(i as int), ", "@),
        decreases roster.len() - i,
    {
        proof {
            lemma_find_index(definitions@, character_has_id(roster@[i as int]@));
        }
        match lookup_character(definitions, roster[i].as_str()) {
            Some(c) => join_step(&mut out, c.name.as_str(), i, Ghost(parts)),
            None => join_step(&mut out, roster[i].as_str(), i, Ghost(parts)),
        }
        i = i + 1;
    }
    assert(parts.take(i as int) =~= parts);
    out
}

/// The story cards by name, joined with ", "; an unknown id stands for itself.
pub fn format_story_cards(card_ids: &[String], definitions: &Vec<StoryCardDefinition>) -> (res: String)
    ensures
        res@ == cards_text(views(card_ids@), definitions@),
{
    let ghost parts = views(card_ids@).map_values(|id: Seq<char>| card_label(definitions@, id));
    let mut out = String::new();
    let mut i: usize = 0;
    while i < card_ids.len()
        invariant
            parts == views(card_ids@).map_values(|id: Seq<char>| card_label(definitions@, id)),
            i <= card_ids@.len(),
            out@ == joined(parts.take(i as int), ", "@),
        decreases card_ids.len() - i,
    {
        match card_position(definitions, card_ids[i].as_str()) {
            Some(k) => join_step(&mut out, definitions[k].name.as_str(), i, Ghost(parts)),
            None => join_step(&mut out, card_ids[i].as_str(), i, Ghost(parts)),
        }
        i = i + 1;
    }
    assert(parts.take(i as int) =~= parts);
    out
}

/// The characters chosen as supports for the selected run, skipping ids
/// that name no character; none when no run is selected.
pub fn current_support_characters<'a>(
    campaigns: &CampaignSaveBundle,
    definitions: &'a Vec<CharacterDefinition>,
) -> (res: Vec<&'a CharacterDefinition>)
    ensures
        res@.map_values(|c: &CharacterDefinition| *c) == match selected_run_of(campaigns@) {
            Some(run) => known_characters(definitions@, run.supports),
            None => Seq::empty(),
        },
{
    let mut res: Vec<&'a CharacterDefinition> = Vec::new();
    match campaigns.selected_run() {
        Some(run) => {
            let ids = &run.selected_magical_girl_support_ids;
            let ghost target = views(ids@);
            let mut i: usize = 0;
            while i < ids.len()
                invariant
                    target == views(ids@),
                    i <= ids@.len(),
                    res@.map_values(|c: &CharacterDefinition| *c) =~= known_characters(
                        definitions@,
                        target.take(i as int),
                    ),
                decreases ids.len() - i,
            {
                let ghost before = res@;
                assert(target.take(i + 1).drop_last() =~= target.take(i as int));
                match lookup_character(definitions, ids[i].as_str()) {
                    Some(c) => {
                        res.push(c);
                        assert(res@.map_values(|c: &CharacterDefinition| *c) =~= before.map_values(
                            |c: &CharacterDefinition| *c,
                        ).push(*c));
                    },
                    None => {},
                }
                i = i + 1;
            }
            assert(target.take(i as int) =~= target);
        },
        None => {},
    }
    res
}

/// The roster entries after the main that name a known character, each with
/// its slot and whether the run has chosen it as a support.
pub fn support_choices(run: &CampaignRunSave, definitions: &Vec<CharacterDefinition>) -> (res: Vec<SupportChoice>)
    ensures
        res@.map_values(|c: SupportChoice| c@) == support_choices_of(
            definitions@,
            views(run.player_deck.magical_girl_roster@),
            views(run.selected_magical_girl_support_ids@),
        ),
{
    let roster = &run.player_deck.magical_girl_roster;
    let ghost ids = views(roster@);
    let ghost chosen = views(run.selected_magical_girl_support_ids@);
    let mut res: Vec<SupportChoice> = Vec::new();
    let mut k: usize = 1;
    while k < roster.len()
        invariant
            ids == views(roster@),
            chosen == views(run.selected_magical_girl_support_ids@),
            1 <= k,
            k <= roster@.len() || k == 1,
            res@.map_values(|c: SupportChoice| c@) =~= choices_upto(definitions@, ids, chosen, k - 1),
        decreases roster.len() - k,
    {
        let ghost before = res@;
        let id = &roster[k];
        match character_position(definitions, id.as_str()) {
            Some(_) => {
                let selected = slice_has_text(run.selected_magical_girl_support_ids.as_slice(), id.as_str());
                let choice = SupportChoice { slot: k - 1, character_id: id.clone(), selected };
                res.push(choice);
                assert(res@.map_values(|c: SupportChoice| c@) =~= before.map_values(|c: SupportChoice| c@).push(
                    choice@,
                ));
            },
            None => {},
        }
        k = k + 1;
    }
    assert(ids.len() == roster@.len());
    if roster.len() == 0 {
        assert(choices_upto(definitions@, ids, chosen, -1) =~= Seq::<SupportChoiceView>::empty());
    }
    res
}

/// The catalog key of the notice that stands in for the hub: no run is
/// selected, the run's current node is not in the campaign, or that node's
/// encounter is not; none when the hub can be shown.
pub open spec fn hub_notice(campaigns: CampaignSaveBundle, campaign: CampaignDefinition) -> Option<Seq<char>> {
    match selected_run_of(campaigns@) {
        None => Some("campaign_no_active_run"@),
        Some(run) => match find_first(campaign.nodes@, node_has_id(run.current_node_id)) {
            None => Some("campaign_missing_node"@),
            Some(node) => match find_first(campaign.encounters@, encounter_has_id(node.encounter_id@)) {
                None => Some("campaign_missing_encounter"@),
                Some(_) => None,
            },
        },
    }
}

/// The catalog key of the notice the hub shows in place of the run, if any.
pub fn hub_notice_key(campaigns: &CampaignSaveBundle, campaign: &CampaignDefinition) -> (res: Option<&'static str>)
    ensures
        match hub_notice(*campaigns, *campaign) {
            Some(k) => res matches Some(r) && r@ == k,
            None => res is None,
        },
{
    match campaigns.selected_run() {
        None => Some("campaign_no_active_run"),
        Some(run) => match campaign.node(run.current_node_id.as_str()) {
            None => Some("campaign_missing_node"),
            Some(node) => match campaign.encounter(node.encounter_id.as_str()) {
                None => Some("campaign_missing_encounter"),
                Some(_) => None,
            },
        },
    }
}

} // verus!
