# eclipse_heart

The save data, deck building and match setup of the card game Eclipse Heart,
as a Rust library whose behaviour is specified and proved with Verus.

`src/` holds the verified library:

- `data` — game content as plain values (cards, characters, loadouts, campaign graph).
- `collection`, `decks`, `campaigns`, `persistence` — the save data and its edits.
- `deck_browser`, `deck_filter`, `deck_search`, `deck_validation`,
  `deck_replacements`, `deck_code` — the deck builder.
- `match_state`, `match_setup` — character growth, side power, choosing
  mains and support pairs, and the opening state of a match.
- `simulation`, `campaign_hub`, `battle_labels` — reports and screen texts.
- `text`, `seqs`, `timestamp` — shared string and sequence helpers.

`app/` reads and writes the saves as JSON and turns deck codes into payloads;
`tests/` exercises the library.
