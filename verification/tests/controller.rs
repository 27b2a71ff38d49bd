use my_game::controller::{parse_args, skill_for_number_keys, ControllerSession};
use my_game::controls::ControlState;
use my_game::net::protocol::{ClientPacket, ServerPacket};
use my_game::skills::SkillKind;

fn args(list: &[&str]) -> Vec<String> {
    list.iter().map(|s| s.to_string()).collect()
}

#[test]
fn controller_defaults() {
    let (server, slot, name) = parse_args(&args(&["controller"]), "me".to_string());
    assert_eq!(server, "127.0.0.1:6000");
    assert_eq!(slot, None);
    assert_eq!(name, "me");
}

#[test]
fn controller_options() {
    let (server, slot, name) = parse_args(
        &args(&["controller", "--server", "10.0.0.2:7000", "--slot", "3", "--name", "ann", "extra"]),
        "me".to_string(),
    );
    assert_eq!(server, "10.0.0.2:7000");
    assert_eq!(slot, Some(3));
    assert_eq!(name, "ann");
}

#[test]
fn controller_bad_slot_is_none() {
    let (_, slot, _) = parse_args(&args(&["c", "--slot", "2", "--slot", "x"]), "me".to_string());
    assert_eq!(slot, None);
    let (_, slot, _) = parse_args(&args(&["c", "--slot", "256"]), "me".to_string());
    assert_eq!(slot, None);
    let (_, slot, _) = parse_args(&args(&["c", "--slot", "+7"]), "me".to_string());
    assert_eq!(slot, Some(7));
    let (_, slot, name) = parse_args(&args(&["c", "--slot", "4", "--name"]), "me".to_string());
    assert_eq!(slot, Some(4));
    assert_eq!(name, "me");
}

#[test]
fn number_keys_pick_skills() {
    assert_eq!(skill_for_number_keys(true, true, false, false), Some(SkillKind::Jetpack));
    assert_eq!(skill_for_number_keys(false, true, true, false), Some(SkillKind::Heavy));
    assert_eq!(skill_for_number_keys(false, false, true, true), Some(SkillKind::Triple));
    assert_eq!(skill_for_number_keys(false, false, false, true), Some(SkillKind::Scatter));
    assert_eq!(skill_for_number_keys(false, false, false, false), None);
}

#[test]
fn session_follows_host_replies() {
    let mut session = ControllerSession::new(Some(2), "ann".to_string());
    assert!(!session.is_ready());
    assert!(session.should_resend_join(true));
    assert!(!session.should_resend_join(false));
    assert!(session.input_packet(ControlState::idle()).is_none());
    match session.join_packet() {
        ClientPacket::Join { desired_slot, name } => {
            assert_eq!(desired_slot, Some(2));
            assert_eq!(name, "ann");
        }
        _ => panic!("not a join"),
    }
    session.handle_reply(ServerPacket::Ack { slot: 1, total_slots: 3 });
    assert!(session.is_ready());
    assert_eq!(session.slot(), Some(1));
    assert!(!session.should_resend_join(true));
    match session.input_packet(ControlState::idle()) {
        Some(ClientPacket::Input { slot, state }) => {
            assert_eq!(slot, 1);
            assert_eq!(state.move_axis, 0);
        }
        _ => panic!("no input packet"),
    }
    session.handle_reply(ServerPacket::Reject { reason: "no available slots".to_string() });
    assert_eq!(session.slot(), None);
}
