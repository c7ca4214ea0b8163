//! The saved state that is loaded and written together.

use vstd::prelude::*;

use crate::campaigns::CampaignSaveBundle;
use crate::collection::CollectionSave;
use crate::decks::DecksSave;

verus! {

/// The collection, deck and campaign saves, loaded and written together.
#[derive(Clone, Debug)]
pub struct PersistenceBundle {
    pub collection: CollectionSave,
    pub decks: DecksSave,
    pub campaigns: CampaignSaveBundle,
}

impl Default for PersistenceBundle {
    fn default() -> (r: Self)
        ensures
            r.collection.version == 2,
            r.collection.owned_magical_girls@.len() == 0,
            r.collection.owned_baddies@.len() == 0,
            r.collection.owned_story_cards@.len() == 0,
            r.decks@.version == 3,
            r.decks@.decks.len() == 0,
            r.decks@.selected is None,
            r.decks@.roster_presets.len() == 0,
            r.decks@.legacy_index == 0,
            r.decks@.undo is None,
            r.campaigns@.version == 2,
            r.campaigns@.runs.len() == 0,
            r.campaigns@.selected is None,
    {
        PersistenceBundle {
            collection: CollectionSave::default(),
            decks: DecksSave::default(),
            campaigns: CampaignSaveBundle::default(),
        }
    }
}

} // verus!
