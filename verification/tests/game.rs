use my_game::game::{
    advance_turn, check_game_over, decide_turn_end, ensure_active_player_alive, phase_step,
    release_charge_action, turn_timer_runs, volleys_to_fire, ChargeRelease, GamePhase,
    LaunchOptions, PhaseAction, PhaseEvent, TurnEnd,
};

fn args(list: &[&str]) -> Vec<String> {
    list.iter().map(|s| s.to_string()).collect()
}

#[test]
fn active_player_alive_stays() {
    let mut active = 1;
    assert!(ensure_active_player_alive(&mut active, &[true, true, false]));
    assert_eq!(active, 1);
}

#[test]
fn dead_active_player_moves_on() {
    let mut active = 1;
    assert!(ensure_active_player_alive(&mut active, &[true, false, false]));
    assert_eq!(active, 0);
    let mut active = 0;
    assert!(ensure_active_player_alive(&mut active, &[false, false, true]));
    assert_eq!(active, 2);
}

#[test]
fn nobody_alive() {
    let mut active = 1;
    assert!(!ensure_active_player_alive(&mut active, &[false, false]));
    assert_eq!(active, 1);
    let mut active = 0;
    assert!(!ensure_active_player_alive(&mut active, &[]));
    let mut active = 3;
    advance_turn(&mut active, &[false, false]);
    assert_eq!(active, 3);
}

#[test]
fn turn_passes_round_the_table() {
    let mut active = 1;
    advance_turn(&mut active, &[true, true, false, true]);
    assert_eq!(active, 3);
    advance_turn(&mut active, &[true, true, false, true]);
    assert_eq!(active, 0);
    let mut active = 2;
    advance_turn(&mut active, &[false, false, true]);
    assert_eq!(active, 2);
    let mut active = 7;
    advance_turn(&mut active, &[true, false, false]);
    assert_eq!(active, 0);
}

#[test]
fn game_over_with_one_player_left() {
    assert_eq!(check_game_over(&[false, true, false]), Some(Some(1)));
    assert_eq!(check_game_over(&[false, false]), Some(None));
    assert_eq!(check_game_over(&[true, true]), None);
    assert_eq!(check_game_over(&[true]), None);
    assert_eq!(check_game_over(&[false]), None);
}

#[test]
fn turn_ends_when_active_player_dies() {
    let d = decide_turn_end(false, true, false, false, false);
    assert_eq!(
        d,
        TurnEnd { end_turn: true, clear_shots: true, clear_projectiles: true, pending_after_action: false }
    );
}

#[test]
fn turn_ends_when_action_played_out() {
    let d = decide_turn_end(true, true, true, true, false);
    assert_eq!(
        d,
        TurnEnd { end_turn: true, clear_shots: false, clear_projectiles: false, pending_after_action: false }
    );
    let d = decide_turn_end(true, true, true, false, false);
    assert_eq!(
        d,
        TurnEnd { end_turn: false, clear_shots: false, clear_projectiles: false, pending_after_action: true }
    );
}

#[test]
fn turn_ends_when_timer_runs_out() {
    let d = decide_turn_end(true, false, false, false, true);
    assert_eq!(
        d,
        TurnEnd { end_turn: true, clear_shots: true, clear_projectiles: false, pending_after_action: false }
    );
    let d = decide_turn_end(true, false, true, true, false);
    assert!(!d.end_turn);
}

#[test]
fn timer_runs_only_before_acting() {
    assert!(turn_timer_runs(true, false));
    assert!(!turn_timer_runs(true, true));
    assert!(!turn_timer_runs(false, false));
}

#[test]
fn empty_pattern_fires_one_straight_volley() {
    assert_eq!(volleys_to_fire(vec![]), vec![(0, vec![0])]);
    let p = vec![(0, vec![-1, 0, 1]), (1, vec![-1, 0, 1])];
    assert_eq!(volleys_to_fire(p.clone()), p);
}

#[test]
fn listen_option() {
    assert_eq!(LaunchOptions::from_args(&args(&["game"])).listen_addr, None);
    assert_eq!(
        LaunchOptions::from_args(&args(&["game", "--listen", "0.0.0.0:6000"])).listen_addr,
        Some("0.0.0.0:6000".to_string())
    );
    assert_eq!(
        LaunchOptions::from_args(&args(&["game", "--listen", "a", "x", "--listen", "b"])).listen_addr,
        Some("b".to_string())
    );
    assert_eq!(LaunchOptions::from_args(&args(&["game", "--listen"])).listen_addr, None);
    assert_eq!(LaunchOptions::from_args(&args(&["--listen", "x"])).listen_addr, None);
    assert_eq!(
        LaunchOptions::from_args(&args(&["game", "--listen", "--listen", "y"])).listen_addr,
        Some("--listen".to_string())
    );
}

#[test]
fn game_over_phase_keeps_winner() {
    let phase = GamePhase::GameOver { winner: Some("Red".to_string()) };
    match phase.clone() {
        GamePhase::GameOver { winner } => assert_eq!(winner.as_deref(), Some("Red")),
        _ => panic!("wrong phase"),
    }
}

#[test]
fn advance_turn_from_any_index() {
    let mut active = usize::MAX;
    advance_turn(&mut active, &[false]);
    assert_eq!(active, usize::MAX);
    let mut active = usize::MAX;
    advance_turn(&mut active, &[true, false, true]);
    // usize::MAX % 3 == 0, so the seat after it is 1 (dead), then 2
    assert_eq!(active, 2);
    let mut active = usize::MAX - 1;
    advance_turn(&mut active, &[true, true]);
    assert_eq!(active, 1);
}

fn names(list: &[&str]) -> Vec<String> {
    list.iter().map(|s| s.to_string()).collect()
}

#[test]
fn screens_follow_each_other() {
    let (p, a) = phase_step(GamePhase::StartMenu, PhaseEvent::Confirm);
    assert!(matches!(p, GamePhase::PlayerSelect));
    assert_eq!(a, PhaseAction::Nothing);
    let (p, a) = phase_step(GamePhase::PlayerSelect, PhaseEvent::PlayersChosen { count: 3 });
    assert!(matches!(p, GamePhase::Playing));
    assert_eq!(a, PhaseAction::NewGame { count: 3 });
    let (p, a) = phase_step(GamePhase::PlayerSelect, PhaseEvent::Confirm);
    assert!(matches!(p, GamePhase::PlayerSelect));
    assert_eq!(a, PhaseAction::Nothing);
    let (p, a) = phase_step(
        GamePhase::GameOver { winner: None },
        PhaseEvent::Confirm,
    );
    assert!(matches!(p, GamePhase::StartMenu));
    assert_eq!(a, PhaseAction::Reset);
}

#[test]
fn play_ends_when_nobody_is_alive() {
    let (p, a) = phase_step(GamePhase::Playing, PhaseEvent::FrameStart { alive: vec![] });
    assert!(matches!(p, GamePhase::GameOver { winner: None }));
    assert_eq!(a, PhaseAction::Nothing);
    let (p, _) = phase_step(GamePhase::Playing, PhaseEvent::FrameStart { alive: vec![false, false] });
    assert!(matches!(p, GamePhase::GameOver { winner: None }));
    let (p, _) = phase_step(GamePhase::Playing, PhaseEvent::FrameStart { alive: vec![false, true] });
    assert!(matches!(p, GamePhase::Playing));
}

#[test]
fn last_survivor_wins() {
    let (p, a) = phase_step(
        GamePhase::Playing,
        PhaseEvent::FrameEnd { alive: vec![false, true, false], names: names(&["Red", "Blue", "Gold"]) },
    );
    match p {
        GamePhase::GameOver { winner } => assert_eq!(winner.as_deref(), Some("Blue")),
        _ => panic!("game goes on"),
    }
    assert_eq!(a, PhaseAction::ClearActions);
    let (p, a) = phase_step(
        GamePhase::Playing,
        PhaseEvent::FrameEnd { alive: vec![true, true], names: names(&["Red", "Blue"]) },
    );
    assert!(matches!(p, GamePhase::Playing));
    assert_eq!(a, PhaseAction::Nothing);
    let (p, _) = phase_step(
        GamePhase::Playing,
        PhaseEvent::FrameEnd { alive: vec![true], names: names(&["Red"]) },
    );
    assert!(matches!(p, GamePhase::Playing));
}

#[test]
fn releasing_the_charge() {
    assert_eq!(release_charge_action(true, true, true, true, false), ChargeRelease::Fire);
    assert_eq!(release_charge_action(true, true, true, true, true), ChargeRelease::LaunchSelf);
    assert_eq!(release_charge_action(true, true, true, false, false), ChargeRelease::Cancel);
    assert_eq!(release_charge_action(true, false, true, true, false), ChargeRelease::Keep);
    assert_eq!(release_charge_action(false, true, true, true, false), ChargeRelease::Keep);
    assert_eq!(release_charge_action(true, true, false, true, false), ChargeRelease::Keep);
}
