//! Reports of headless AI-vs-AI matches for balance testing: what each
//! action and encounter did, the milestones of a match, and the tallies of
//! a series of matches.

use vstd::prelude::*;

use crate::match_state::{opposing, other, CharacterStage, MatchPhase, MatchState, PlayerId, PlayerState};
use crate::seqs::{find_index, lemma_find_index_at, lemma_find_index_none};
use crate::text::text_eq;

verus! {

/// What one encounter looked like before it resolved, and how it ended.
#[derive(Clone, Debug)]
pub struct EncounterReport {
    pub round: u32,
    pub attacker: PlayerId,
    pub defender: PlayerId,
    pub was_final_climax: bool,
    pub magical_girl_power: i32,
    pub baddie_power: i32,
    pub outcome: String,
    pub attacker_main_stage_before: String,
    pub attacker_main_radiance_before: i32,
    pub attacker_failed_final_climax_bonus_before: i32,
    pub attacker_failed_final_climax_bonus_after: i32,
    pub defender_main_magical_girl_stage_before: String,
    pub defender_prime_baddie_stage_before: String,
    pub defender_prime_baddie_dread_before: i32,
}

/// One action taken in a match and the events it logged.
#[derive(Clone, Debug)]
pub struct ActionReport {
    pub sequence: usize,
    pub round: u32,
    pub phase_before: String,
    pub actor: PlayerId,
    pub action_type: String,
    pub card_name: Option<String>,
    pub is_reaction: bool,
    pub events: Vec<String>,
}

/// The record of one simulated match.
#[derive(Clone, Debug)]
pub struct MatchReport {
    pub player_a_loadout: String,
    pub player_b_loadout: String,
    pub starting_player: PlayerId,
    pub winner: Option<PlayerId>,
    pub rounds_completed: u32,
    pub non_final_climax_rounds: u32,
    pub final_climax_declared: bool,
    pub final_climax_started_round: Option<u32>,
    pub failed_final_climax_attempts: u32,
    pub player_a_first_radiant_round: Option<u32>,
    pub player_b_first_radiant_round: Option<u32>,
    pub player_a_prime_first_catastrophe_round: Option<u32>,
    pub player_b_prime_first_catastrophe_round: Option<u32>,
    pub reached_round_cap: bool,
    pub reached_action_cap: bool,
    pub actions: Vec<ActionReport>,
    pub encounters: Vec<EncounterReport>,
}

/// Runs simulated matches.
pub struct SimulationRunner;

/// When a match reached its milestones.
#[derive(Clone, Copy, Debug, PartialEq, Eq, Structural)]
pub struct MatchMilestones {
    pub non_final_climax_rounds: u32,
    pub player_a_first_radiant_round: Option<u32>,
    pub player_b_first_radiant_round: Option<u32>,
    pub player_a_prime_first_catastrophe_round: Option<u32>,
    pub player_b_prime_first_catastrophe_round: Option<u32>,
}

/// The whole-number tallies of a series of matches.
#[derive(Clone, Copy, Debug, PartialEq, Eq, Structural)]
pub struct SeriesTally {
    pub matches_run: usize,
    pub player_a_wins: usize,
    pub player_b_wins: usize,
    pub unfinished_matches: usize,
    pub total_rounds_completed: u128,
    pub total_failed_final_climax_attempts: u128,
}

/// The events logged since the cursor: all of them from the cursor on, or
/// none when the cursor is past the end.
pub open spec fn new_events(events: Seq<String>, cursor: int) -> Seq<String> {
    events.skip(if cursor < events.len() { cursor } else { events.len() as int })
}

/// Hands out the events logged since `event_cursor` and moves the cursor to
/// the end of the log.
pub fn take_new_events(current_events: &[String], event_cursor: &mut usize) -> (res: Vec<String>)
    ensures
        res@ == new_events(current_events@, *old(event_cursor) as int),
        *final(event_cursor) == current_events@.len(),
{
    let start = if *event_cursor < current_events.len() {
        *event_cursor
    } else {
        current_events.len()
    };
    let mut events: Vec<String> = Vec::new();
    let mut i: usize = start;
    while i < current_events.len()
        invariant
            start <= i <= current_events@.len(),
            events@ =~= current_events@.subrange(start as int, i as int),
        decreases current_events.len() - i,
    {
        events.push(current_events[i].clone());
        i = i + 1;
    }
    *event_cursor = current_events.len();
    events
}

/// In this encounter the player's main magical girl was at the stage:
/// as the attacker's main, or as the defender's.
pub open spec fn magical_girl_at_stage(player: PlayerId, stage: Seq<char>) -> spec_fn(EncounterReport) -> bool {
    |e: EncounterReport|
        (e.attacker == player && e.attacker_main_stage_before@ == stage) || (e.defender == player
            && e.defender_main_magical_girl_stage_before@ == stage)
}

/// In this encounter the player defended with its prime baddie at the stage.
pub open spec fn prime_baddie_at_stage(player: PlayerId, stage: Seq<char>) -> spec_fn(EncounterReport) -> bool {
    |e: EncounterReport| e.defender == player && e.defender_prime_baddie_stage_before@ == stage
}

/// The round of the first encounter satisfying `p`.
pub open spec fn first_round(encounters: Seq<EncounterReport>, p: spec_fn(EncounterReport) -> bool) -> Option<u32> {
    match find_index(encounters, p) {
        Some(i) => Some(encounters[i].round),
        None => None,
    }
}

/// The round of the first encounter in which the player's main magical
/// girl was at `target_stage` before it resolved.
pub fn first_round_with_magical_girl_stage(
    encounters: &[EncounterReport],
    player: PlayerId,
    target_stage: &str,
) -> (res: Option<u32>)
    ensures
        res == first_round(encounters@, magical_girl_at_stage(player, target_stage@)),
{
    let ghost p = magical_girl_at_stage(player, target_stage@);
    let mut i: usize = 0;
    while i < encounters.len()
        invariant
            p == magical_girl_at_stage(player, target_stage@),
            i <= encounters@.len(),
            forall|j: int| 0 <= j < i ==> !(#[trigger] p(encounters@[j])),
        decreases encounters.len() - i,
    {
        let e = &encounters[i];
        if (e.attacker == player && text_eq(e.attacker_main_stage_before.as_str(), target_stage)) || (
        e.defender == player && text_eq(e.defender_main_magical_girl_stage_before.as_str(), target_stage)) {
            proof {
                lemma_find_index_at(encounters@, p, i as int);
            }
            return Some(e.round);
        }
        i = i + 1;
    }
    proof {
        lemma_find_index_none(encounters@, p);
    }
    None
}

/// The round of the first encounter in which the player defended with its
/// prime baddie at `target_stage`.
pub fn first_round_with_prime_baddie_stage(
    encounters: &[EncounterReport],
    player: PlayerId,
    target_stage: &str,
) -> (res: Option<u32>)
    ensures
        res == first_round(encounters@, prime_baddie_at_stage(player, target_stage@)),
{
    let ghost p = prime_baddie_at_stage(player, target_stage@);
    let mut i: usize = 0;
    while i < encounters.len()
        invariant
            p == prime_baddie_at_stage(player, target_stage@),
            i <= encounters@.len(),
            forall|j: int| 0 <= j < i ==> !(#[trigger] p(encounters@[j])),
        decreases encounters.len() - i,
    {
        let e = &encounters[i];
        if e.defender == player && text_eq(e.defender_prime_baddie_stage_before.as_str(), target_stage) {
            proof {
                lemma_find_index_at(encounters@, p, i as int);
            }
            return Some(e.round);
        }
        i = i + 1;
    }
    proof {
        lemma_find_index_none(encounters@, p);
    }
    None
}

/// The rounds played before the Final Climax: one fewer than the round it
/// started in (never below 0), or every round when it never started.
pub open spec fn rounds_before_final_climax(final_climax_started_round: Option<u32>, rounds_completed: u32) -> u32 {
    match final_climax_started_round {
        Some(round) => if round > 0 {
            (round - 1) as u32
        } else {
            0
        },
        None => rounds_completed,
    }
}

/// The milestones of a match from its encounters.
pub fn derive_milestones(
    encounters: &[EncounterReport],
    final_climax_started_round: Option<u32>,
    rounds_completed: u32,
) -> (res: MatchMilestones)
    ensures
        res.non_final_climax_rounds == rounds_before_final_climax(final_climax_started_round, rounds_completed),
        res.player_a_first_radiant_round == first_round(
            encounters@,
            magical_girl_at_stage(PlayerId::PlayerA, "Radiant"@),
        ),
        res.player_b_first_radiant_round == first_round(
            encounters@,
            magical_girl_at_stage(PlayerId::PlayerB, "Radiant"@),
        ),
        res.player_a_prime_first_catastrophe_round == first_round(
            encounters@,
            prime_baddie_at_stage(PlayerId::PlayerA, "Catastrophe"@),
        ),
        res.player_b_prime_first_catastrophe_round == first_round(
            encounters@,
            prime_baddie_at_stage(PlayerId::PlayerB, "Catastrophe"@),
        ),
{
    let non_final_climax_rounds = match final_climax_started_round {
        Some(round) => if round > 0 {
            round - 1
        } else {
            0
        },
        None => rounds_completed,
    };
    MatchMilestones {
        non_final_climax_rounds,
        player_a_first_radiant_round: first_round_with_magical_girl_stage(encounters, PlayerId::PlayerA, "Radiant"),
        player_b_first_radiant_round: first_round_with_magical_girl_stage(encounters, PlayerId::PlayerB, "Radiant"),
        player_a_prime_first_catastrophe_round: first_round_with_prime_baddie_stage(
            encounters,
            PlayerId::PlayerA,
            "Catastrophe",
        ),
        player_b_prime_first_catastrophe_round: first_round_with_prime_baddie_stage(
            encounters,
            PlayerId::PlayerB,
            "Catastrophe",
        ),
    }
}

/// The match was won by `player`.
pub open spec fn won_by(report: MatchReport, player: PlayerId) -> bool {
    report.winner == Some(player)
}

/// The match stopped at a cap before it finished.
pub open spec fn unfinished(report: MatchReport) -> bool {
    report.reached_round_cap || report.reached_action_cap
}

/// The tallies of the first `k` reports.
pub open spec fn tally_of(reports: Seq<MatchReport>, k: int) -> SeriesTally
    decreases k,
{
    if k <= 0 {
        SeriesTally {
            matches_run: 0,
            player_a_wins: 0,
            player_b_wins: 0,
            unfinished_matches: 0,
            total_rounds_completed: 0,
            total_failed_final_climax_attempts: 0,
        }
    } else {
        let before = tally_of(reports, k - 1);
        let r = reports[k - 1];
        SeriesTally {
            matches_run: (before.matches_run + 1) as usize,
            player_a_wins: (before.player_a_wins + if won_by(r, PlayerId::PlayerA) {
                1int
            } else {
                0
            }) as usize,
            player_b_wins: (before.player_b_wins + if won_by(r, PlayerId::PlayerB) {
                1int
            } else {
                0
            }) as usize,
            unfinished_matches: (before.unfinished_matches + if unfinished(r) {
                1int
            } else {
                0
            }) as usize,
            total_rounds_completed: (before.total_rounds_completed + r.rounds_completed) as u128,
            total_failed_final_climax_attempts: (before.total_failed_final_climax_attempts
                + r.failed_final_climax_attempts) as u128,
        }
    }
}

/// The counts of the first `k` reports stay within `k`, and the totals
/// within `k` times the largest round count.
proof fn lemma_tally_bounds(reports: Seq<MatchReport>, k: int)
    requires
        0 <= k <= reports.len(),
        reports.len() <= usize::MAX,
    ensures
        tally_of(reports, k).matches_run == k,
        tally_of(reports, k).player_a_wins <= k,
        tally_of(reports, k).player_b_wins <= k,
        tally_of(reports, k).unfinished_matches <= k,
        tally_of(reports, k).total_rounds_completed <= k * 0xffff_ffff,
        tally_of(reports, k).total_failed_final_climax_attempts <= k * 0xffff_ffff,
    decreases k,
{
    if k > 0 {
        lemma_tally_bounds(reports, k - 1);
        let before = tally_of(reports, k - 1);
        let r = reports[k - 1];
        assert(before.total_rounds_completed + r.rounds_completed <= k * 0xffff_ffff);
        assert(k * 0xffff_ffff <= 0xffff_ffff_ffff_ffff * 0xffff_ffff) by (nonlinear_arith)
            requires
                k <= 0xffff_ffff_ffff_ffff,
        ;
    }
}

/// The report is of a match won by `player`.
pub open spec fn is_won_by(player: PlayerId) -> spec_fn(MatchReport) -> bool {
    |r: MatchReport| won_by(r, player)
}

/// The report is of a match stopped at a cap.
pub open spec fn is_unfinished() -> spec_fn(MatchReport) -> bool {
    |r: MatchReport| unfinished(r)
}

proof fn lemma_tally_prefix(reports: Seq<MatchReport>, k: int)
    requires
        0 <= k <= reports.len(),
        reports.len() <= usize::MAX,
    ensures
        tally_of(reports, k).player_a_wins == reports.take(k).filter(is_won_by(PlayerId::PlayerA)).len(),
        tally_of(reports, k).player_b_wins == reports.take(k).filter(is_won_by(PlayerId::PlayerB)).len(),
        tally_of(reports, k).unfinished_matches == reports.take(k).filter(is_unfinished()).len(),
        tally_of(reports, k).player_a_wins + tally_of(reports, k).player_b_wins <= k,
    decreases k,
{
    reveal(Seq::filter);
    if k > 0 {
        lemma_tally_prefix(reports, k - 1);
        lemma_tally_bounds(reports, k - 1);
        let t = reports.take(k);
        assert(t.drop_last() =~= reports.take(k - 1));
        assert(t.last() == reports[k - 1]);
    } else {
        assert(reports.take(k) =~= Seq::<MatchReport>::empty());
    }
}

/// The tally counts what it says: one match per report, the wins of each
/// player and the matches stopped at a cap are the numbers of reports of
/// that kind, and no match is won by both players.
pub proof fn lemma_tally_counts(reports: Seq<MatchReport>)
    requires
        reports.len() <= usize::MAX,
    ensures
        tally_of(reports, reports.len() as int).matches_run == reports.len(),
        tally_of(reports, reports.len() as int).player_a_wins == reports.filter(is_won_by(PlayerId::PlayerA)).len(),
        tally_of(reports, reports.len() as int).player_b_wins == reports.filter(is_won_by(PlayerId::PlayerB)).len(),
        tally_of(reports, reports.len() as int).unfinished_matches == reports.filter(is_unfinished()).len(),
        tally_of(reports, reports.len() as int).player_a_wins + tally_of(reports, reports.len() as int).player_b_wins
            <= reports.len(),
{
    lemma_tally_bounds(reports, reports.len() as int);
    lemma_tally_prefix(reports, reports.len() as int);
    assert(reports.take(reports.len() as int) =~= reports);
}

/// Tallies a series of match reports: how many ran, how many each player
/// won, how many stopped at a cap, and the round and failed-Final-Climax
/// totals from which averages are taken.
pub fn tally_reports(reports: &[MatchReport]) -> (res: SeriesTally)
    ensures
        res == tally_of(reports@, reports@.len() as int),
{
    let mut tally = SeriesTally {
        matches_run: 0,
        player_a_wins: 0,
        player_b_wins: 0,
        unfinished_matches: 0,
        total_rounds_completed: 0,
        total_failed_final_climax_attempts: 0,
    };
    let mut i: usize = 0;
    while i < reports.len()
        invariant
            i <= reports@.len(),
            tally == tally_of(reports@, i as int),
        decreases reports.len() - i,
    {
        proof {
            lemma_tally_bounds(reports@, i + 1);
            lemma_tally_bounds(reports@, i as int);
        }
        let r = &reports[i];
        tally.matches_run = tally.matches_run + 1;
        match r.winner {
            Some(PlayerId::PlayerA) => tally.player_a_wins = tally.player_a_wins + 1,
            Some(PlayerId::PlayerB) => tally.player_b_wins = tally.player_b_wins + 1,
            None => {},
        }
        if r.reached_round_cap || r.reached_action_cap {
            tally.unfinished_matches = tally.unfinished_matches + 1;
        }
        tally.total_rounds_completed = tally.total_rounds_completed + r.rounds_completed as u128;
        tally.total_failed_final_climax_attempts = tally.total_failed_final_climax_attempts
            + r.failed_final_climax_attempts as u128;
        i = i + 1;
    }
    tally
}

/// An action a player (or the engine on the active player's behalf) takes.
#[derive(Clone, Copy, Debug, PartialEq, Eq, Structural)]
pub enum MatchAction {
    ResolveEncounter,
    DeclareFinalClimax,
    PlayCardFromHand { player: PlayerId, hand_index: usize },
    RevealFirstHiddenSupport { player: PlayerId, is_magical_girl_side: bool },
    PassDailyLife { player: PlayerId },
    PassEncounter { player: PlayerId },
    PassReaction { player: PlayerId },
}

/// What is recorded of an action before it is applied.
#[derive(Clone, Debug)]
pub struct ActionContext {
    pub sequence: usize,
    pub round: u32,
    pub phase_before: MatchPhase,
    pub actor: PlayerId,
    pub action_type: &'static str,
    pub card_name: Option<String>,
    pub is_reaction: bool,
}

/// The name an action is reported under.
pub open spec fn action_type_name(action: MatchAction) -> Seq<char> {
    match action {
        MatchAction::ResolveEncounter => "ResolveEncounter"@,
        MatchAction::DeclareFinalClimax => "DeclareFinalClimax"@,
        MatchAction::PlayCardFromHand { .. } => "PlayCardFromHand"@,
        MatchAction::RevealFirstHiddenSupport { is_magical_girl_side, .. } => if is_magical_girl_side {
            "RevealHiddenMagicalGirlSupport"@
        } else {
            "RevealHiddenBaddieSupport"@
        },
        MatchAction::PassDailyLife { .. } => "PassDailyLife"@,
        MatchAction::PassEncounter { .. } => "PassEncounter"@,
        MatchAction::PassReaction { .. } => "PassReaction"@,
    }
}

/// Who takes the action: the active player for encounter resolution and the
/// Final Climax, the named player otherwise.
pub open spec fn action_actor(action: MatchAction, active_player: PlayerId) -> PlayerId {
    match action {
        MatchAction::ResolveEncounter | MatchAction::DeclareFinalClimax => active_player,
        MatchAction::PlayCardFromHand { player, .. } => player,
        MatchAction::RevealFirstHiddenSupport { player, .. } => player,
        MatchAction::PassDailyLife { player } => player,
        MatchAction::PassEncounter { player } => player,
        MatchAction::PassReaction { player } => player,
    }
}

/// Whether the action is taken as a reaction: a reaction pass always, a
/// card play or reveal when the actor holds reaction priority.
pub open spec fn action_is_reaction(action: MatchAction, reaction_priority: Option<PlayerId>) -> bool {
    match action {
        MatchAction::PlayCardFromHand { player, .. } => reaction_priority == Some(player),
        MatchAction::RevealFirstHiddenSupport { player, .. } => reaction_priority == Some(player),
        MatchAction::PassReaction { .. } => true,
        _ => false,
    }
}

/// The record of an action about to be applied in `round` and `phase`;
/// `hand_card_name` is the name of the card a card play would play, and
/// `reaction_priority` the player holding reaction priority, if any.
pub fn action_context_before(
    round: u32,
    phase: MatchPhase,
    active_player: PlayerId,
    reaction_priority: Option<PlayerId>,
    hand_card_name: Option<String>,
    action: &MatchAction,
    sequence: usize,
) -> (res: ActionContext)
    ensures
        res.sequence == sequence,
        res.round == round,
        res.phase_before == phase,
        res.actor == action_actor(*action, active_player),
        res.action_type@ == action_type_name(*action),
        res.card_name == (if action is PlayCardFromHand {
            hand_card_name
        } else {
            None
        }),
        res.is_reaction == action_is_reaction(*action, reaction_priority),
{
    let (actor, action_type, card_name, is_reaction): (PlayerId, &'static str, Option<String>, bool) = match *action {
        MatchAction::ResolveEncounter => (active_player, "ResolveEncounter", None, false),
        MatchAction::DeclareFinalClimax => (active_player, "DeclareFinalClimax", None, false),
        MatchAction::PlayCardFromHand { player, .. } => (
            player,
            "PlayCardFromHand",
            hand_card_name,
            reaction_priority == Some(player),
        ),
        MatchAction::RevealFirstHiddenSupport { player, is_magical_girl_side } => (
            player,
            if is_magical_girl_side {
                "RevealHiddenMagicalGirlSupport"
            } else {
                "RevealHiddenBaddieSupport"
            },
            None,
            reaction_priority == Some(player),
        ),
        MatchAction::PassDailyLife { player } => (player, "PassDailyLife", None, false),
        MatchAction::PassEncounter { player } => (player, "PassEncounter", None, false),
        MatchAction::PassReaction { player } => (player, "PassReaction", None, true),
    };
    ActionContext { sequence, round, phase_before: phase, actor, action_type, card_name, is_reaction }
}

/// The name a phase is reported under.
pub open spec fn phase_name(phase: MatchPhase) -> Seq<char> {
    match phase {
        MatchPhase::DailyLife => "DailyLife"@,
        MatchPhase::Encounter => "Encounter"@,
        MatchPhase::FinalClimax => "FinalClimax"@,
        MatchPhase::Finished => "Finished"@,
    }
}

/// The name a phase is reported under.
pub fn phase_label(phase: MatchPhase) -> (res: String)
    ensures
        res@ == phase_name(phase),
{
    match phase {
        MatchPhase::DailyLife => crate::text::owned("DailyLife"),
        MatchPhase::Encounter => crate::text::owned("Encounter"),
        MatchPhase::FinalClimax => crate::text::owned("FinalClimax"),
        MatchPhase::Finished => crate::text::owned("Finished"),
    }
}

impl ActionContext {
    /// The report of the action once applied: its record, and the events
    /// logged since `event_cursor`, which moves to the end of the log.
    pub fn finish(self, event_log: &[String], event_cursor: &mut usize) -> (res: ActionReport)
        ensures
            res.sequence == self.sequence,
            res.round == self.round,
            res.phase_before@ == phase_name(self.phase_before),
            res.actor == self.actor,
            res.action_type@ == self.action_type@,
            res.card_name == self.card_name,
            res.is_reaction == self.is_reaction,
            res.events@ == new_events(event_log@, *old(event_cursor) as int),
            *final(event_cursor) == event_log@.len(),
    {
        ActionReport {
            sequence: self.sequence,
            round: self.round,
            phase_before: phase_label(self.phase_before),
            actor: self.actor,
            action_type: crate::text::owned(self.action_type),
            card_name: self.card_name,
            is_reaction: self.is_reaction,
            events: take_new_events(event_log, event_cursor),
        }
    }
}

/// Whether applying the action resolves the encounter: in an encounter or
/// the Final Climax, resolving it, or the priority player passing after at
/// least one pass with no reaction open.
pub open spec fn resolves_encounter(
    phase: MatchPhase,
    reaction_open: bool,
    priority_player: PlayerId,
    phase_passes: u8,
    action: MatchAction,
) -> bool {
    (phase == MatchPhase::Encounter || phase == MatchPhase::FinalClimax) && match action {
        MatchAction::ResolveEncounter => true,
        MatchAction::PassEncounter { player } => !reaction_open && priority_player == player && phase_passes >= 1,
        _ => false,
    }
}

/// Whether applying the action resolves the encounter.
pub fn action_will_resolve_encounter(
    phase: MatchPhase,
    reaction_open: bool,
    priority_player: PlayerId,
    phase_passes: u8,
    action: &MatchAction,
) -> (res: bool)
    ensures
        res == resolves_encounter(phase, reaction_open, priority_player, phase_passes, *action),
{
    if phase != MatchPhase::Encounter && phase != MatchPhase::FinalClimax {
        return false;
    }
    match *action {
        MatchAction::ResolveEncounter => true,
        MatchAction::PassEncounter { player } => !reaction_open && priority_player == player && phase_passes >= 1,
        _ => false,
    }
}

/// The player state of `player`.
pub open spec fn player_of(state: MatchState, player: PlayerId) -> PlayerState {
    match player {
        PlayerId::PlayerA => state.player_a,
        PlayerId::PlayerB => state.player_b,
    }
}

/// The player state of `player`.
pub fn player_for(state: &MatchState, player: PlayerId) -> (res: &PlayerState)
    ensures
        *res == player_of(*state, player),
{
    match player {
        PlayerId::PlayerA => &state.player_a,
        PlayerId::PlayerB => &state.player_b,
    }
}

/// What an encounter looked like just before it resolved.
#[derive(Clone, Copy, Debug, PartialEq, Eq, Structural)]
pub struct EncounterSnapshot {
    pub round: u32,
    pub attacker: PlayerId,
    pub defender: PlayerId,
    pub was_final_climax: bool,
    pub magical_girl_power: i32,
    pub baddie_power: i32,
    pub attacker_main_stage_before: CharacterStage,
    pub attacker_main_radiance_before: i32,
    pub attacker_failed_final_climax_bonus_before: i32,
    pub defender_main_magical_girl_stage_before: CharacterStage,
    pub defender_prime_baddie_stage_before: CharacterStage,
    pub defender_prime_baddie_dread_before: i32,
}

/// The snapshot taken of `state` before an action that resolves the
/// encounter: the active player attacks with its magical girls against the
/// other player's baddies.
pub open spec fn snapshot_of(state: MatchState) -> EncounterSnapshot {
    let attacker = state.active_player;
    let defender = other(attacker);
    let a = player_of(state, attacker);
    let d = player_of(state, defender);
    EncounterSnapshot {
        round: state.round,
        attacker,
        defender,
        was_final_climax: state.phase == MatchPhase::FinalClimax,
        magical_girl_power: a.magical_girls.power() as i32,
        baddie_power: d.baddies.power() as i32,
        attacker_main_stage_before: a.magical_girls.main.stage,
        attacker_main_radiance_before: a.magical_girls.main.radiance,
        attacker_failed_final_climax_bonus_before: a.magical_girls.main.failed_final_climax_power_bonus,
        defender_main_magical_girl_stage_before: d.magical_girls.main.stage,
        defender_prime_baddie_stage_before: d.baddies.main.stage,
        defender_prime_baddie_dread_before: d.baddies.main.dread,
    }
}

/// A snapshot of the encounter when the action will resolve it, none otherwise.
pub fn encounter_snapshot_before_action(state: &MatchState, action: &MatchAction) -> (res: Option<EncounterSnapshot>)
    requires
        resolves_encounter(state.phase, state.reaction_state is Some, state.priority_player, state.phase_passes, *action)
            ==> player_of(*state, state.active_player).magical_girls.power_fits() && player_of(
            *state,
            other(state.active_player),
        ).baddies.power_fits(),
    ensures
        res == if resolves_encounter(
            state.phase,
            state.reaction_state is Some,
            state.priority_player,
            state.phase_passes,
            *action,
        ) {
            Some(snapshot_of(*state))
        } else {
            None
        },
{
    let reaction_open = match state.reaction_state {
        Some(_) => true,
        None => false,
    };
    if !action_will_resolve_encounter(state.phase, reaction_open, state.priority_player, state.phase_passes, action) {
        return None;
    }
    let attacker = state.active_player;
    let defender = opposing(attacker);
    let attacking = player_for(state, attacker);
    let defending = player_for(state, defender);
    let attacker_main = &attacking.magical_girls.main;
    Some(EncounterSnapshot {
        round: state.round,
        attacker,
        defender,
        was_final_climax: state.phase == MatchPhase::FinalClimax,
        magical_girl_power: attacking.magical_girls.total_power(),
        baddie_power: defending.baddies.total_power(),
        attacker_main_stage_before: attacker_main.stage,
        attacker_main_radiance_before: attacker_main.radiance,
        attacker_failed_final_climax_bonus_before: attacker_main.failed_final_climax_power_bonus,
        defender_main_magical_girl_stage_before: defending.magical_girls.main.stage,
        defender_prime_baddie_stage_before: defending.baddies.main.stage,
        defender_prime_baddie_dread_before: defending.baddies.main.dread,
    })
}

/// The name a stage is reported under.
pub open spec fn stage_name(stage: CharacterStage) -> Seq<char> {
    match stage {
        CharacterStage::Base => "Base"@,
        CharacterStage::Transformed => "Transformed"@,
        CharacterStage::Radiant => "Radiant"@,
        CharacterStage::Awakened => "Awakened"@,
        CharacterStage::Catastrophe => "Catastrophe"@,
    }
}

/// The name a stage is reported under.
pub fn stage_label(stage: CharacterStage) -> (res: String)
    ensures
        res@ == stage_name(stage),
{
    match stage {
        CharacterStage::Base => crate::text::owned("Base"),
        CharacterStage::Transformed => crate::text::owned("Transformed"),
        CharacterStage::Radiant => crate::text::owned("Radiant"),
        CharacterStage::Awakened => crate::text::owned("Awakened"),
        CharacterStage::Catastrophe => crate::text::owned("Catastrophe"),
    }
}

impl EncounterSnapshot {
    /// The report of the encounter once resolved with the given outcome:
    /// the snapshot, stages by name, and the attacker's failed-Final-Climax
    /// bonus as it now stands.
    pub fn finish(self, state: &MatchState, outcome: &str) -> (res: EncounterReport)
        ensures
            res.round == self.round,
            res.attacker == self.attacker,
            res.defender == self.defender,
            res.was_final_climax == self.was_final_climax,
            res.magical_girl_power == self.magical_girl_power,
            res.baddie_power == self.baddie_power,
            res.outcome@ == outcome@,
            res.attacker_main_stage_before@ == stage_name(self.attacker_main_stage_before),
            res.attacker_main_radiance_before == self.attacker_main_radiance_before,
            res.attacker_failed_final_climax_bonus_before == self.attacker_failed_final_climax_bonus_before,
            res.attacker_failed_final_climax_bonus_after == player_of(
                *state,
                self.attacker,
            ).magical_girls.main.failed_final_climax_power_bonus,
            res.defender_main_magical_girl_stage_before@ == stage_name(self.defender_main_magical_girl_stage_before),
            res.defender_prime_baddie_stage_before@ == stage_name(self.defender_prime_baddie_stage_before),
            res.defender_prime_baddie_dread_before == self.defender_prime_baddie_dread_before,
    {
        EncounterReport {
            round: self.round,
            attacker: self.attacker,
            defender: self.defender,
            was_final_climax: self.was_final_climax,
            magical_girl_power: self.magical_girl_power,
            baddie_power: self.baddie_power,
            outcome: crate::text::owned(outcome),
            attacker_main_stage_before: stage_label(self.attacker_main_stage_before),
            attacker_main_radiance_before: self.attacker_main_radiance_before,
            attacker_failed_final_climax_bonus_before: self.attacker_failed_final_climax_bonus_before,
            attacker_failed_final_climax_bonus_after: player_for(
                state,
                self.attacker,
            ).magical_girls.main.failed_final_climax_power_bonus,
            defender_main_magical_girl_stage_before: stage_label(self.defender_main_magical_girl_stage_before),
            defender_prime_baddie_stage_before: stage_label(self.defender_prime_baddie_stage_before),
            defender_prime_baddie_dread_before: self.defender_prime_baddie_dread_before,
        }
    }
}

/// The action cap of a simulated match: two hundred actions per round allowed.
pub fn action_cap_for(round_cap: u32) -> (res: usize)
    requires
        round_cap * 200 <= usize::MAX,
    ensures
        res == round_cap * 200,
{
    round_cap as usize * 200
}

/// Whether a simulated match goes on: it is not finished, the round is
/// within the cap and actions are left.
pub fn keeps_running(phase: MatchPhase, round: u32, round_cap: u32, actions_taken: usize, action_cap: usize) -> (res:
    bool)
    ensures
        res == (phase != MatchPhase::Finished && round <= round_cap && actions_taken < action_cap),
{
    phase != MatchPhase::Finished && round <= round_cap && actions_taken < action_cap
}

/// What a simulated match has counted so far.
#[derive(Clone, Copy, Debug, PartialEq, Eq, Structural)]
pub struct MatchRunProgress {
    pub actions_taken: usize,
    pub failed_final_climax_attempts: u32,
    pub final_climax_started_round: Option<u32>,
}

impl MatchRunProgress {
    /// Nothing counted yet.
    pub fn new() -> (res: Self)
        ensures
            res.actions_taken == 0,
            res.failed_final_climax_attempts == 0,
            res.final_climax_started_round is None,
    {
        MatchRunProgress { actions_taken: 0, failed_final_climax_attempts: 0, final_climax_started_round: None }
    }

    /// Records the round the Final Climax is declared in, the first time
    /// the next action declares it.
    pub fn note_final_climax_declaration(&mut self, declares: bool, round: u32)
        ensures
            *final(self) == (if declares && old(self).final_climax_started_round is None {
                MatchRunProgress { final_climax_started_round: Some(round), ..*old(self) }
            } else {
                *old(self)
            }),
    {
        if declares && self.final_climax_started_round.is_none() {
            self.final_climax_started_round = Some(round);
        }
    }

    /// Counts an applied action, and a failed Final Climax attempt when the
    /// action resolved a Final Climax encounter and the match goes on.
    pub fn note_action(&mut self, resolved_final_climax_encounter: bool, phase_after: MatchPhase)
        requires
            old(self).actions_taken < usize::MAX,
            old(self).failed_final_climax_attempts < u32::MAX,
        ensures
            final(self).actions_taken == old(self).actions_taken + 1,
            final(self).failed_final_climax_attempts == old(self).failed_final_climax_attempts + if resolved_final_climax_encounter
                && phase_after != MatchPhase::Finished {
                1int
            } else {
                0
            },
            final(self).final_climax_started_round == old(self).final_climax_started_round,
    {
        self.actions_taken = self.actions_taken + 1;
        if resolved_final_climax_encounter && phase_after != MatchPhase::Finished {
            self.failed_final_climax_attempts = self.failed_final_climax_attempts + 1;
        }
    }
}

/// The report of a simulated match once it stopped: its loadouts and start,
/// the final state's winner, round and Final Climax flag, what was counted,
/// the milestones of its encounters, and which cap it reached unfinished.
pub fn match_report(
    player_a_loadout: String,
    player_b_loadout: String,
    starting_player: PlayerId,
    final_state: &MatchState,
    round_cap: u32,
    action_cap: usize,
    progress: MatchRunProgress,
    actions: Vec<ActionReport>,
    encounters: Vec<EncounterReport>,
) -> (res: MatchReport)
    ensures
        res.player_a_loadout == player_a_loadout,
        res.player_b_loadout == player_b_loadout,
        res.starting_player == starting_player,
        res.winner == final_state.winner,
        res.rounds_completed == final_state.round,
        res.non_final_climax_rounds == rounds_before_final_climax(
            progress.final_climax_started_round,
            final_state.round,
        ),
        res.final_climax_declared == final_state.final_climax_active,
        res.final_climax_started_round == progress.final_climax_started_round,
        res.failed_final_climax_attempts == progress.failed_final_climax_attempts,
        res.player_a_first_radiant_round == first_round(encounters@, magical_girl_at_stage(PlayerId::PlayerA, "Radiant"@)),
        res.player_b_first_radiant_round == first_round(encounters@, magical_girl_at_stage(PlayerId::PlayerB, "Radiant"@)),
        res.player_a_prime_first_catastrophe_round == first_round(
            encounters@,
            prime_baddie_at_stage(PlayerId::PlayerA, "Catastrophe"@),
        ),
        res.player_b_prime_first_catastrophe_round == first_round(
            encounters@,
            prime_baddie_at_stage(PlayerId::PlayerB, "Catastrophe"@),
        ),
        res.reached_round_cap == (final_state.phase != MatchPhase::Finished && final_state.round > round_cap),
        res.reached_action_cap == (final_state.phase != MatchPhase::Finished && progress.actions_taken >= action_cap),
        res.actions@ == actions@,
        res.encounters@ == encounters@,
{
    let milestones = derive_milestones(
        encounters.as_slice(),
        progress.final_climax_started_round,
        final_state.round,
    );
    let unfinished = final_state.phase != MatchPhase::Finished;
    MatchReport {
        player_a_loadout,
        player_b_loadout,
        starting_player,
        winner: final_state.winner,
        rounds_completed: final_state.round,
        non_final_climax_rounds: milestones.non_final_climax_rounds,
        final_climax_declared: final_state.final_climax_active,
        final_climax_started_round: progress.final_climax_started_round,
        failed_final_climax_attempts: progress.failed_final_climax_attempts,
        player_a_first_radiant_round: milestones.player_a_first_radiant_round,
        player_b_first_radiant_round: milestones.player_b_first_radiant_round,
        player_a_prime_first_catastrophe_round: milestones.player_a_prime_first_catastrophe_round,
        player_b_prime_first_catastrophe_round: milestones.player_b_prime_first_catastrophe_round,
        reached_round_cap: unfinished && final_state.round > round_cap,
        reached_action_cap: unfinished && progress.actions_taken >= action_cap,
        actions,
        encounters,
    }
}

} // verus!
