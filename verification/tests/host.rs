use my_game::controls::{ControlState, SkillCommand};
use my_game::net::host::{InputSlots, PeerAddr, SlotInfo, LOCAL_SLOT, SLOT_TIMEOUT_NANOS};
use my_game::net::protocol::{ClientPacket, ServerPacket, MAX_PACKET_SIZE};
use my_game::skills::SkillKind;

fn peer(port: u16) -> PeerAddr {
    PeerAddr::V4 { ip: 0x7f00_0001, port }
}

fn moving_right() -> ControlState {
    ControlState {
        move_axis: 1,
        aim_up: false,
        aim_down: false,
        start_charge: true,
        release_charge: false,
        skill_command: Some(SkillCommand::Toggle(SkillKind::Scatter)),
    }
}

fn ack(reply: &ServerPacket) -> (u8, u8) {
    match reply {
        ServerPacket::Ack { slot, total_slots } => (*slot, *total_slots),
        ServerPacket::Reject { reason } => panic!("rejected: {reason}"),
    }
}

fn reject(reply: &ServerPacket) -> String {
    match reply {
        ServerPacket::Reject { reason } => reason.clone(),
        ServerPacket::Ack { .. } => panic!("acknowledged"),
    }
}

#[test]
fn join_before_configuring_is_refused() {
    let mut slots = InputSlots::new();
    let reply = slots.handle_join(peer(1), Some(1), "ann".to_string(), 10);
    assert_eq!(reject(&reply), "game not ready");
    assert_eq!(slots.first_available_slot(), None);
}

#[test]
fn join_gets_desired_then_first_free_slot() {
    let mut slots = InputSlots::new();
    slots.configure_slots(3);
    assert_eq!(ack(&slots.handle_join(peer(1), Some(2), "ann".to_string(), 10)), (2, 3));
    assert_eq!(ack(&slots.handle_join(peer(2), Some(2), "bob".to_string(), 11)), (1, 3));
    let reply = slots.handle_join(peer(3), None, "cid".to_string(), 12);
    assert_eq!(reject(&reply), "no available slots");
}

#[test]
fn local_slot_cannot_be_taken() {
    let mut slots = InputSlots::new();
    slots.configure_slots(2);
    assert_eq!(slots.validate_slot(LOCAL_SLOT), None);
    assert_eq!(ack(&slots.handle_join(peer(1), Some(0), "ann".to_string(), 1)), (1, 2));
    let reply = slots.handle_join(peer(2), Some(0), "bob".to_string(), 2);
    assert_eq!(reject(&reply), "no available slots");
}

#[test]
fn single_slot_table_has_no_remote_slot() {
    let mut slots = InputSlots::new();
    slots.configure_slots(1);
    let reply = slots.handle_join(peer(1), None, "ann".to_string(), 1);
    assert_eq!(reject(&reply), "no available slots");
}

#[test]
fn validate_and_first_available() {
    let mut slots = InputSlots::new();
    slots.configure_slots(4);
    assert_eq!(slots.validate_slot(3), Some(3));
    assert_eq!(slots.validate_slot(4), None);
    assert_eq!(slots.first_available_slot(), Some(1));
    slots.handle_join(peer(1), None, "ann".to_string(), 1);
    assert_eq!(slots.validate_slot(1), None);
    assert_eq!(slots.first_available_slot(), Some(2));
}

#[test]
fn input_only_from_the_slot_holder() {
    let mut slots = InputSlots::new();
    slots.configure_slots(3);
    slots.handle_join(peer(1), Some(1), "ann".to_string(), 1);
    slots.handle_input(peer(2), 1, moving_right(), 2);
    assert_eq!(slots.state_for(1).move_axis, 0);
    slots.handle_input(peer(1), 1, moving_right(), 3);
    let s = slots.state_for(1);
    assert_eq!(s.move_axis, 1);
    assert!(s.start_charge);
    assert!(matches!(s.skill_command, Some(SkillCommand::Toggle(SkillKind::Scatter))));
    slots.handle_input(peer(1), 0, moving_right(), 4);
    assert_eq!(slots.state_for(0).move_axis, 0);
    slots.handle_input(peer(1), 9, moving_right(), 4);
    assert_eq!(slots.state_for(9).move_axis, 0);
}

#[test]
fn silent_controllers_time_out() {
    let mut slots = InputSlots::new();
    slots.configure_slots(3);
    slots.handle_join(peer(1), Some(1), "ann".to_string(), 100);
    slots.handle_join(peer(2), Some(2), "bob".to_string(), 100);
    slots.handle_input(peer(1), 1, moving_right(), 100);
    slots.handle_input(peer(2), 2, moving_right(), 100 + SLOT_TIMEOUT_NANOS);
    slots.cleanup_timeouts(100 + SLOT_TIMEOUT_NANOS);
    assert_eq!(slots.first_available_slot(), None);
    slots.cleanup_timeouts(101 + SLOT_TIMEOUT_NANOS);
    assert_eq!(slots.first_available_slot(), Some(1));
    assert_eq!(slots.state_for(1).move_axis, 0);
    assert_eq!(slots.state_for(2).move_axis, 1);
}

#[test]
fn fill_states_copies_what_fits() {
    let mut slots = InputSlots::new();
    slots.configure_slots(3);
    slots.handle_join(peer(1), Some(2), "ann".to_string(), 1);
    slots.handle_input(peer(1), 2, moving_right(), 2);
    let mut target = vec![moving_right(), moving_right()];
    slots.fill_states(&mut target);
    assert_eq!(target[0].move_axis, 0);
    assert_eq!(target[1].move_axis, 0);
    let mut target = vec![ControlState::idle(); 5];
    target[4] = moving_right();
    slots.fill_states(&mut target);
    assert_eq!(target[2].move_axis, 1);
    assert_eq!(target[4].move_axis, 1);
}

#[test]
fn handle_packet_answers_joins_only() {
    let mut slots = InputSlots::new();
    slots.configure_slots(2);
    let reply = slots.handle_packet(
        ClientPacket::Join { desired_slot: None, name: "ann".to_string() },
        peer(5),
        1,
    );
    assert_eq!(ack(&reply.unwrap()), (1, 2));
    let reply = slots.handle_packet(ClientPacket::Input { slot: 1, state: moving_right() }, peer(5), 2);
    assert!(reply.is_none());
    assert_eq!(slots.state_for(1).move_axis, 1);
}

#[test]
fn ipv6_and_ipv4_peers_differ() {
    let mut slots = InputSlots::new();
    slots.configure_slots(2);
    slots.handle_join(peer(7), None, "ann".to_string(), 1);
    let v6 = PeerAddr::V6 { ip: 1, port: 7, flowinfo: 0, scope_id: 0 };
    slots.handle_input(v6, 1, moving_right(), 2);
    assert_eq!(slots.state_for(1).move_axis, 0);
}

#[test]
fn slot_info_default_is_free() {
    let info = SlotInfo::default();
    assert!(info.addr.is_none() && info.name.is_none() && info.last_seen.is_none());
    assert_eq!(MAX_PACKET_SIZE, 2048);
}
