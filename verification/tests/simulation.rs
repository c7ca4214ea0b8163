use eclipse_heart::match_state::{MatchPhase, PlayerId};
use eclipse_heart::data::{CharacterDefinition, GameContent};
use eclipse_heart::match_setup::MatchSetup;
use eclipse_heart::match_state::MatchState;
use eclipse_heart::simulation::{
    action_cap_for, action_context_before, action_will_resolve_encounter, derive_milestones,
    encounter_snapshot_before_action, first_round_with_magical_girl_stage,
    first_round_with_prime_baddie_stage, keeps_running, match_report, take_new_events, tally_reports,
    EncounterReport, MatchAction, MatchReport, MatchRunProgress,
};

fn encounter(round: u32, attacker: PlayerId, mg_stage: &str, defender_mg: &str, prime: &str) -> EncounterReport {
    EncounterReport {
        round,
        attacker,
        defender: if attacker == PlayerId::PlayerA { PlayerId::PlayerB } else { PlayerId::PlayerA },
        was_final_climax: false,
        magical_girl_power: 5,
        baddie_power: 4,
        outcome: "Win".to_owned(),
        attacker_main_stage_before: mg_stage.to_owned(),
        attacker_main_radiance_before: 0,
        attacker_failed_final_climax_bonus_before: 0,
        attacker_failed_final_climax_bonus_after: 0,
        defender_main_magical_girl_stage_before: defender_mg.to_owned(),
        defender_prime_baddie_stage_before: prime.to_owned(),
        defender_prime_baddie_dread_before: 0,
    }
}

fn report(winner: Option<PlayerId>, rounds: u32, failed: u32, capped: bool) -> MatchReport {
    MatchReport {
        player_a_loadout: "a".to_owned(),
        player_b_loadout: "b".to_owned(),
        starting_player: PlayerId::PlayerA,
        winner,
        rounds_completed: rounds,
        non_final_climax_rounds: 0,
        final_climax_declared: false,
        final_climax_started_round: None,
        failed_final_climax_attempts: failed,
        player_a_first_radiant_round: None,
        player_b_first_radiant_round: None,
        player_a_prime_first_catastrophe_round: None,
        player_b_prime_first_catastrophe_round: None,
        reached_round_cap: capped,
        reached_action_cap: false,
        actions: Vec::new(),
        encounters: Vec::new(),
    }
}

#[test]
fn new_events_are_handed_out_once() {
    let log: Vec<String> = ["a", "b", "c"].iter().map(|s| s.to_string()).collect();
    let mut cursor = 0;
    assert_eq!(take_new_events(&log[..2], &mut cursor), vec!["a", "b"]);
    assert_eq!(cursor, 2);
    assert_eq!(take_new_events(&log, &mut cursor), vec!["c"]);
    assert_eq!(cursor, 3);
    assert!(take_new_events(&log, &mut cursor).is_empty());
    let mut past = 10;
    assert!(take_new_events(&log, &mut past).is_empty());
    assert_eq!(past, 3);
}

#[test]
fn first_stage_rounds_look_at_both_sides() {
    let encounters = vec![
        encounter(1, PlayerId::PlayerA, "Base", "Base", "Base"),
        encounter(2, PlayerId::PlayerB, "Transformed", "Radiant", "Awakened"),
        encounter(3, PlayerId::PlayerA, "Radiant", "Base", "Catastrophe"),
    ];
    assert_eq!(first_round_with_magical_girl_stage(&encounters, PlayerId::PlayerA, "Radiant"), Some(2));
    assert_eq!(first_round_with_magical_girl_stage(&encounters, PlayerId::PlayerB, "Radiant"), None);
    assert_eq!(first_round_with_magical_girl_stage(&encounters, PlayerId::PlayerB, "Transformed"), Some(2));
    assert_eq!(first_round_with_prime_baddie_stage(&encounters, PlayerId::PlayerB, "Catastrophe"), Some(3));
    assert_eq!(first_round_with_prime_baddie_stage(&encounters, PlayerId::PlayerA, "Catastrophe"), None);

    let milestones = derive_milestones(&encounters, Some(4), 6);
    assert_eq!(milestones.non_final_climax_rounds, 3);
    assert_eq!(milestones.player_a_first_radiant_round, Some(2));
    assert_eq!(milestones.player_b_first_radiant_round, None);
    assert_eq!(milestones.player_b_prime_first_catastrophe_round, Some(3));
    assert_eq!(milestones.player_a_prime_first_catastrophe_round, None);
}

#[test]
fn rounds_before_final_climax() {
    assert_eq!(derive_milestones(&[], None, 6).non_final_climax_rounds, 6);
    assert_eq!(derive_milestones(&[], Some(0), 6).non_final_climax_rounds, 0);
    assert_eq!(derive_milestones(&[], Some(1), 6).non_final_climax_rounds, 0);
}

#[test]
fn series_tally_counts_wins_caps_and_totals() {
    let reports = vec![
        report(Some(PlayerId::PlayerA), 5, 1, false),
        report(Some(PlayerId::PlayerB), 7, 0, false),
        report(None, 30, 2, true),
        report(Some(PlayerId::PlayerA), 4, 0, false),
    ];
    let tally = tally_reports(&reports);
    assert_eq!(tally.matches_run, 4);
    assert_eq!(tally.player_a_wins, 2);
    assert_eq!(tally.player_b_wins, 1);
    assert_eq!(tally.unfinished_matches, 1);
    assert_eq!(tally.total_rounds_completed, 46);
    assert_eq!(tally.total_failed_final_climax_attempts, 3);
    assert_eq!(tally_reports(&[]).matches_run, 0);
}

#[test]
fn action_contexts_name_the_actor_and_kind() {
    let play = MatchAction::PlayCardFromHand { player: PlayerId::PlayerB, hand_index: 0 };
    let context = action_context_before(
        3,
        MatchPhase::Encounter,
        PlayerId::PlayerA,
        Some(PlayerId::PlayerB),
        Some("Shared Umbrella".to_owned()),
        &play,
        7,
    );
    assert_eq!(context.actor, PlayerId::PlayerB);
    assert_eq!(context.action_type, "PlayCardFromHand");
    assert_eq!(context.card_name.as_deref(), Some("Shared Umbrella"));
    assert!(context.is_reaction);

    let log: Vec<String> = vec!["played".to_owned(), "resolved".to_owned()];
    let mut cursor = 1;
    let report = context.finish(&log, &mut cursor);
    assert_eq!(report.phase_before, "Encounter");
    assert_eq!(report.sequence, 7);
    assert_eq!(report.round, 3);
    assert_eq!(report.events, vec!["resolved".to_owned()]);
    assert_eq!(cursor, 2);

    let reveal = MatchAction::RevealFirstHiddenSupport { player: PlayerId::PlayerA, is_magical_girl_side: false };
    let context = action_context_before(1, MatchPhase::DailyLife, PlayerId::PlayerB, None, Some("x".to_owned()), &reveal, 1);
    assert_eq!(context.action_type, "RevealHiddenBaddieSupport");
    assert_eq!(context.card_name, None);
    assert!(!context.is_reaction);
    let resolve = action_context_before(1, MatchPhase::FinalClimax, PlayerId::PlayerB, None, None, &MatchAction::ResolveEncounter, 2);
    assert_eq!(resolve.actor, PlayerId::PlayerB);
    assert!(action_context_before(1, MatchPhase::DailyLife, PlayerId::PlayerA, None, None, &MatchAction::PassReaction { player: PlayerId::PlayerA }, 3).is_reaction);
}

#[test]
fn encounters_resolve_on_resolution_or_a_second_pass() {
    let pass = MatchAction::PassEncounter { player: PlayerId::PlayerA };
    assert!(action_will_resolve_encounter(MatchPhase::Encounter, false, PlayerId::PlayerA, 1, &pass));
    assert!(!action_will_resolve_encounter(MatchPhase::Encounter, false, PlayerId::PlayerA, 0, &pass));
    assert!(!action_will_resolve_encounter(MatchPhase::Encounter, true, PlayerId::PlayerA, 1, &pass));
    assert!(!action_will_resolve_encounter(MatchPhase::Encounter, false, PlayerId::PlayerB, 1, &pass));
    assert!(action_will_resolve_encounter(MatchPhase::FinalClimax, true, PlayerId::PlayerB, 0, &MatchAction::ResolveEncounter));
    assert!(!action_will_resolve_encounter(MatchPhase::DailyLife, false, PlayerId::PlayerA, 3, &MatchAction::ResolveEncounter));
}

fn character(id: &str, power: i32) -> CharacterDefinition {
    CharacterDefinition {
        id: id.to_owned(),
        name: id.to_owned(),
        base_power: power,
        transformed_power: power + 2,
        final_power: power + 4,
        first_threshold: 3,
        second_threshold: 5,
    }
}

fn opening_state() -> MatchState {
    let mut content = GameContent::default();
    content.magical_girls = vec![character("a", 3), character("b", 2), character("c", 1)];
    content.baddies = vec![character("x", 4), character("y", 5), character("z", 6)];
    let setup = MatchSetup::default_for_content(&content);
    MatchState::from_setup(&content, &setup)
}

#[test]
fn encounter_snapshots_record_the_attack() {
    let mut state = opening_state();
    assert!(encounter_snapshot_before_action(&state, &MatchAction::ResolveEncounter).is_none());
    state.phase = MatchPhase::FinalClimax;
    state.player_a.magical_girls.main.radiance = 2;
    let snapshot = encounter_snapshot_before_action(&state, &MatchAction::ResolveEncounter).expect("snapshot");
    assert_eq!(snapshot.attacker, PlayerId::PlayerA);
    assert_eq!(snapshot.defender, PlayerId::PlayerB);
    assert!(snapshot.was_final_climax);
    assert_eq!(snapshot.magical_girl_power, 3 + 2);
    assert_eq!(snapshot.baddie_power, 4 + 5);
    assert_eq!(snapshot.attacker_main_radiance_before, 2);

    state.player_a.magical_girls.main.failed_final_climax_power_bonus = 1;
    let report = snapshot.finish(&state, "Tie");
    assert_eq!(report.outcome, "Tie");
    assert_eq!(report.attacker_main_stage_before, "Base");
    assert_eq!(report.attacker_failed_final_climax_bonus_before, 0);
    assert_eq!(report.attacker_failed_final_climax_bonus_after, 1);
}

#[test]
fn run_bookkeeping_counts_caps_and_attempts() {
    let cap = action_cap_for(30);
    assert_eq!(cap, 6000);
    assert!(keeps_running(MatchPhase::DailyLife, 30, 30, 5, cap));
    assert!(!keeps_running(MatchPhase::DailyLife, 31, 30, 5, cap));
    assert!(!keeps_running(MatchPhase::Finished, 1, 30, 5, cap));
    assert!(!keeps_running(MatchPhase::Encounter, 1, 30, cap, cap));

    let mut progress = MatchRunProgress::new();
    progress.note_final_climax_declaration(false, 2);
    progress.note_final_climax_declaration(true, 4);
    progress.note_final_climax_declaration(true, 5);
    progress.note_action(true, MatchPhase::DailyLife);
    progress.note_action(true, MatchPhase::Finished);
    progress.note_action(false, MatchPhase::Encounter);
    assert_eq!(progress.final_climax_started_round, Some(4));
    assert_eq!(progress.actions_taken, 3);
    assert_eq!(progress.failed_final_climax_attempts, 1);

    let mut state = opening_state();
    state.round = 31;
    let report = match_report("A".to_owned(), "B".to_owned(), PlayerId::PlayerB, &state, 30, cap, progress, Vec::new(), Vec::new());
    assert_eq!(report.non_final_climax_rounds, 3);
    assert!(report.reached_round_cap);
    assert!(!report.reached_action_cap);
    assert_eq!(report.rounds_completed, 31);
    assert_eq!(report.starting_player, PlayerId::PlayerB);
    assert_eq!(report.failed_final_climax_attempts, 1);
}
