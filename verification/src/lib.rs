use vstd::prelude::*;

pub mod collection;
pub mod data;
pub mod seqs;
pub mod text;
pub mod deck_browser;
pub mod deck_search;
pub mod deck_filter;
pub mod timestamp;
pub mod deck_code;
pub mod decks;
pub mod campaigns;
pub mod deck_validation;
pub mod deck_replacements;
pub mod match_state;
pub mod match_setup;
pub mod simulation;
pub mod campaign_hub;
pub mod persistence;
pub mod battle_labels;
