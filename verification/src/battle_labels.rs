//! Which text-catalog entry the battle screen shows for a player's status,
//! a match result, a hand card, an action hint and a campaign encounter, and
//! the line that lists a side's supports.

use vstd::prelude::*;

use crate::campaigns::battle_site;
use crate::data::CampaignDefinition;
use crate::campaign_hub::joined;
use crate::match_state::{opposing, other, MatchPhase, MatchState, PlayerId, SupportState};
use crate::text::{append_text, decimal, decimal_string};

verus! {

/// The catalog key of a player's status: finished once the match is over,
/// otherwise attacking for the active player and defending for the other.
pub open spec fn status_key(phase: MatchPhase, active: PlayerId, player: PlayerId) -> Seq<char> {
    if phase == MatchPhase::Finished {
        "battle_finished_label"@
    } else if active == player {
        "battle_attacking_label"@
    } else if other(active) == player {
        "battle_defending_label"@
    } else {
        "battle_idle_label"@
    }
}

/// The catalog key of a player's status in the match.
pub fn player_status_key(match_state: &MatchState, player: PlayerId) -> (res: &'static str)
    ensures
        res@ == status_key(match_state.phase, match_state.active_player, player),
{
    if match_state.phase == MatchPhase::Finished {
        "battle_finished_label"
    } else if match_state.active_player == player {
        "battle_attacking_label"
    } else if opposing(match_state.active_player) == player {
        "battle_defending_label"
    } else {
        "battle_idle_label"
    }
}

/// The catalog key of a match result.
pub fn winner_label_key(winner: Option<PlayerId>) -> (res: &'static str)
    ensures
        res@ == match winner {
            Some(PlayerId::PlayerA) => "battle_result_player_a"@,
            Some(PlayerId::PlayerB) => "battle_result_player_b"@,
            None => "battle_result_unknown"@,
        },
{
    match winner {
        Some(PlayerId::PlayerA) => "battle_result_player_a",
        Some(PlayerId::PlayerB) => "battle_result_player_b",
        None => "battle_result_unknown",
    }
}

/// The catalog key of a campaign battle result: player A is the player.
pub fn campaign_winner_label_key(winner: Option<PlayerId>) -> (res: &'static str)
    ensures
        res@ == match winner {
            Some(PlayerId::PlayerA) => "campaign_battle_player_wins"@,
            Some(PlayerId::PlayerB) => "campaign_battle_enemy_wins"@,
            None => "battle_result_unknown"@,
        },
{
    match winner {
        Some(PlayerId::PlayerA) => "campaign_battle_player_wins",
        Some(PlayerId::PlayerB) => "campaign_battle_enemy_wins",
        None => "battle_result_unknown",
    }
}

/// The catalog key of a hand card's status.
pub fn hand_card_status_key(enabled: bool) -> (res: &'static str)
    ensures
        res@ == if enabled {
            "battle_card_ready"@
        } else {
            "battle_card_hold"@
        },
{
    if enabled {
        "battle_card_ready"
    } else {
        "battle_card_hold"
    }
}

/// The name of the encounter fought at the campaign node `node_id`, when
/// the campaign has the node and its encounter.
pub fn campaign_encounter_name(campaign: &CampaignDefinition, node_id: &str) -> (res: Option<String>)
    ensures
        match battle_site(*campaign, node_id@) {
            Some((_, e)) => res matches Some(name) && name@ == e.name@,
            None => res is None,
        },
{
    match campaign.node(node_id) {
        Some(node) => match campaign.encounter(node.encounter_id.as_str()) {
            Some(encounter) => Some(encounter.name.clone()),
            None => None,
        },
        None => None,
    }
}

/// The catalog key of the hint for a player: react while holding reaction
/// priority; otherwise, while holding the proactive priority, act in daily
/// life or in an encounter; otherwise the match is over, or wait.
pub open spec fn hint_key(
    phase: MatchPhase,
    reaction_priority: Option<PlayerId>,
    proactive_priority: Option<PlayerId>,
    player: PlayerId,
) -> Seq<char> {
    if reaction_priority == Some(player) {
        "battle_hint_reaction"@
    } else if proactive_priority == Some(player) && phase == MatchPhase::DailyLife {
        "battle_hint_daily_life"@
    } else if proactive_priority == Some(player) && (phase == MatchPhase::Encounter || phase
        == MatchPhase::FinalClimax) {
        "battle_hint_encounter"@
    } else if phase == MatchPhase::Finished {
        "battle_hint_finished"@
    } else {
        "battle_hint_waiting"@
    }
}

/// The catalog key of the action hint for `player`, given who holds the
/// reaction and the proactive priority.
pub fn battle_action_hint_key(
    phase: MatchPhase,
    reaction_priority: Option<PlayerId>,
    proactive_priority: Option<PlayerId>,
    player: PlayerId,
) -> (res: &'static str)
    ensures
        res@ == hint_key(phase, reaction_priority, proactive_priority, player),
{
    let reacting = match reaction_priority {
        Some(p) => p == player,
        None => false,
    };
    let proactive = match proactive_priority {
        Some(p) => p == player,
        None => false,
    };
    if reacting {
        "battle_hint_reaction"
    } else if proactive && phase == MatchPhase::DailyLife {
        "battle_hint_daily_life"
    } else if proactive && (phase == MatchPhase::Encounter || phase == MatchPhase::FinalClimax) {
        "battle_hint_encounter"
    } else if phase == MatchPhase::Finished {
        "battle_hint_finished"
    } else {
        "battle_hint_waiting"
    }
}

/// The label of the `k`-th support (from 0): `S` and its number, then its
/// name when revealed or the hidden label.
pub open spec fn support_label(support: SupportState, k: int, hidden_label: Seq<char>) -> Seq<char> {
    "S"@ + decimal((k + 1) as nat) + " "@ + if support.revealed {
        support.runtime.name@
    } else {
        hidden_label
    }
}

/// The supports line: the label, `: `, then each support's label, separated by ` | `.
pub open spec fn supports_line(supports: Seq<SupportState>, supports_label: Seq<char>, hidden_label: Seq<char>) -> Seq<
    char,
> {
    supports_label + ": "@ + joined(
        Seq::new(supports.len(), |k: int| support_label(supports[k], k, hidden_label)),
        " | "@,
    )
}

/// The line listing a side's supports.
pub fn format_supports(supports: &[SupportState], supports_label: &str, hidden_label: &str) -> (res: String)
    ensures
        res@ == supports_line(supports@, supports_label@, hidden_label@),
{
    let ghost parts = Seq::new(supports@.len(), |k: int| support_label(supports@[k], k, hidden_label@));
    let mut body = String::new();
    let mut i: usize = 0;
    while i < supports.len()
        invariant
            i <= supports@.len(),
            parts == Seq::new(supports@.len(), |k: int| support_label(supports@[k], k, hidden_label@)),
            body@ == joined(parts.take(i as int), " | "@),
        decreases supports.len() - i,
    {
        let ghost before = body@;
        if i > 0 {
            append_text(&mut body, " | ");
        }
        append_text(&mut body, "S");
        let number = decimal_string(i as u128 + 1);
        append_text(&mut body, number.as_str());
        append_text(&mut body, " ");
        if supports[i].revealed {
            append_text(&mut body, supports[i].runtime.name.as_str());
        } else {
            append_text(&mut body, hidden_label);
        }
        proof {
            assert(parts.take(i + 1).drop_last() =~= parts.take(i as int));
            assert(parts[i as int] == support_label(supports@[i as int], i as int, hidden_label@));
            if i > 0 {
                assert(body@ =~= before + " | "@ + parts[i as int]);
            } else {
                assert(parts.take(i + 1) =~= seq![parts[0]]);
                assert(body@ =~= parts[0]);
            }
        }
        i = i + 1;
    }
    assert(parts.take(i as int) =~= parts);
    let mut line = String::new();
    append_text(&mut line, supports_label);
    append_text(&mut line, ": ");
    append_text(&mut line, body.as_str());
    assert(line@ =~= supports_line(supports@, supports_label@, hidden_label@));
    line
}

} // verus!
