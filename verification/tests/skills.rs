use my_game::controls::{ControlState, SkillCommand};
use my_game::skills::{build_shot_pattern, is_valid_skill_combo, SkillKind, SkillLoadout};

use SkillKind::{Heavy, Jetpack, Scatter, Triple};

fn loadout(presses: &[SkillKind]) -> SkillLoadout {
    let mut l = SkillLoadout::new();
    for &k in presses {
        l.toggle(k);
    }
    l
}

#[test]
fn new_loadout_is_empty() {
    let l = SkillLoadout::new();
    assert!(!l.jetpack_enabled());
    assert_eq!(l.heavy_count(), 0);
    assert_eq!(l.triple_count(), 0);
    assert!(!l.scatter_selected());
    assert!(l.labels().is_empty());
    assert!(SkillLoadout::default().labels().is_empty());
}

#[test]
fn heavy_stacks_twice_then_clears() {
    let mut l = SkillLoadout::new();
    l.toggle(Heavy);
    assert_eq!(l.heavy_count(), 1);
    l.toggle(Heavy);
    assert_eq!(l.heavy_count(), 2);
    assert_eq!(l.labels(), vec!["heavy", "heavy"]);
    l.toggle(Heavy);
    assert_eq!(l.heavy_count(), 0);
    assert!(l.labels().is_empty());
}

#[test]
fn triple_stacks_twice_then_clears() {
    let l = loadout(&[Triple, Triple]);
    assert_eq!(l.triple_count(), 2);
    assert_eq!(loadout(&[Triple, Triple, Triple]).triple_count(), 0);
}

#[test]
fn jetpack_is_exclusive() {
    let mut l = loadout(&[Heavy, Scatter]);
    l.toggle(Jetpack);
    assert!(l.jetpack_enabled());
    assert_eq!(l.labels(), vec!["jet"]);
    l.toggle(Heavy);
    l.toggle(Triple);
    l.toggle(Scatter);
    assert_eq!(l.labels(), vec!["jet"]);
    l.toggle(Jetpack);
    assert!(l.labels().is_empty());
}

#[test]
fn jetpack_pressed_twice_clears() {
    let l = loadout(&[Triple, Jetpack, Jetpack]);
    assert!(l.labels().is_empty());
    let l = loadout(&[Jetpack, Jetpack, Jetpack]);
    assert_eq!(l.labels(), vec!["jet"]);
}

#[test]
fn scatter_toggles_on_and_off() {
    let mut l = loadout(&[Heavy]);
    l.toggle(Scatter);
    assert!(l.scatter_selected());
    assert_eq!(l.labels(), vec!["heavy", "scatter"]);
    l.toggle(Scatter);
    assert!(!l.scatter_selected());
    assert_eq!(l.labels(), vec!["heavy"]);
}

#[test]
fn scatter_does_not_fit_a_full_loadout() {
    let l = loadout(&[Heavy, Triple, Scatter]);
    assert_eq!(l.labels(), vec!["heavy", "consecutive"]);
}

#[test]
fn loadout_is_kept_in_rank_order() {
    let l = loadout(&[Scatter, Triple]);
    assert_eq!(l.labels(), vec!["consecutive", "scatter"]);
    let l = loadout(&[Triple, Heavy]);
    assert_eq!(l.labels(), vec!["heavy", "consecutive"]);
}

#[test]
fn second_heavy_that_does_not_fit_drops_heavy() {
    let l = loadout(&[Heavy, Triple, Heavy]);
    assert_eq!(l.labels(), vec!["consecutive"]);
}

#[test]
fn first_heavy_that_does_not_fit_changes_nothing() {
    let l = loadout(&[Triple, Triple, Heavy]);
    assert_eq!(l.labels(), vec!["consecutive", "consecutive"]);
}

#[test]
fn stacking_cycle_returns_to_start() {
    let l = loadout(&[Scatter, Heavy, Heavy]);
    assert_eq!(l.labels(), vec!["scatter"]);
    let l = loadout(&[Triple, Heavy, Heavy]);
    assert_eq!(l.labels(), vec!["consecutive"]);
    let l = loadout(&[Triple, Triple, Heavy]);
    assert_eq!(l.labels(), vec!["consecutive", "consecutive"]);
}

#[test]
fn valid_combos() {
    assert!(is_valid_skill_combo(&[]));
    assert!(is_valid_skill_combo(&[Jetpack]));
    assert!(!is_valid_skill_combo(&[Jetpack, Heavy]));
    assert!(!is_valid_skill_combo(&[Heavy, Jetpack]));
    assert!(is_valid_skill_combo(&[Heavy, Heavy]));
    assert!(is_valid_skill_combo(&[Triple, Triple]));
    assert!(is_valid_skill_combo(&[Heavy, Triple]));
    assert!(is_valid_skill_combo(&[Scatter, Scatter]));
    assert!(is_valid_skill_combo(&[Triple, Scatter]));
    assert!(!is_valid_skill_combo(&[Heavy, Triple, Scatter]));
    assert!(!is_valid_skill_combo(&[Heavy, Heavy, Heavy]));
}

#[test]
fn plain_shot_has_no_pattern() {
    let (pattern, halves) = build_shot_pattern(&SkillLoadout::new());
    assert!(pattern.is_empty());
    assert_eq!(halves, 2);
}

#[test]
fn heavy_raises_damage() {
    assert_eq!(build_shot_pattern(&loadout(&[Heavy])).1, 3);
    assert_eq!(build_shot_pattern(&loadout(&[Heavy, Heavy])).1, 4);
}

#[test]
fn scatter_alone_fires_one_spread_volley() {
    let (pattern, halves) = build_shot_pattern(&loadout(&[Scatter]));
    assert_eq!(pattern, vec![(0, vec![-1, 0, 1])]);
    assert_eq!(halves, 2);
}

#[test]
fn triple_fires_three_volleys() {
    let (pattern, _) = build_shot_pattern(&loadout(&[Triple]));
    assert_eq!(pattern, vec![(0, vec![0]), (1, vec![0]), (2, vec![0])]);
    let (pattern, halves) = build_shot_pattern(&loadout(&[Triple, Scatter]));
    assert_eq!(pattern.len(), 3);
    assert!(pattern.iter().all(|(_, o)| *o == vec![-1, 0, 1]));
    assert_eq!(halves, 2);
}

#[test]
fn double_triple_fires_five_volleys() {
    let (pattern, _) = build_shot_pattern(&loadout(&[Triple, Triple]));
    assert_eq!(pattern.len(), 5);
    assert_eq!(pattern[4], (4, vec![0]));
}

#[test]
fn clone_keeps_skills() {
    let l = loadout(&[Heavy, Scatter]);
    assert_eq!(l.clone().labels(), vec!["heavy", "scatter"]);
}

#[test]
fn button_state_shows_counts() {
    let l = loadout(&[Heavy, Heavy]);
    assert_eq!(l.button_state(Heavy), (true, Some(2)));
    assert_eq!(l.button_state(Triple), (false, None));
    let l = loadout(&[Triple, Scatter]);
    assert_eq!(l.button_state(Triple), (true, None));
    assert_eq!(l.button_state(Scatter), (true, None));
    assert_eq!(l.button_state(Jetpack), (false, None));
}

#[test]
fn skill_command_kind() {
    assert_eq!(SkillCommand::Toggle(Triple).kind(), Triple);
}

#[test]
fn idle_control_state() {
    let s = ControlState::idle();
    assert_eq!(s.move_axis, 0);
    assert!(!s.aim_up && !s.aim_down && !s.start_charge && !s.release_charge);
    assert!(s.skill_command.is_none());
}

#[test]
fn control_state_from_keys() {
    let s = ControlState::from_keys(true, true, false, true, false, true, false, Some(Heavy));
    assert_eq!(s.move_axis, -1);
    assert!(s.aim_up && !s.aim_down && s.start_charge && !s.release_charge);
    assert!(matches!(s.skill_command, Some(SkillCommand::Toggle(Heavy))));
    let s = ControlState::from_keys(true, true, true, false, false, false, true, None);
    assert_eq!(s.move_axis, 0);
    assert!(s.release_charge);
    let s = ControlState::from_keys(true, false, true, false, false, false, false, None);
    assert_eq!(s.move_axis, 1);
    let s = ControlState::from_keys(false, true, true, true, true, true, true, Some(Jetpack));
    assert_eq!(s.move_axis, 0);
    assert!(!s.aim_up && s.skill_command.is_none());
}
