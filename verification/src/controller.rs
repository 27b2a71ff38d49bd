use vstd::prelude::*;

use crate::controls::ControlState;
use crate::game::arg_texts;
use crate::net::protocol::{ClientPacket, ServerPacket};
use crate::skills::SkillKind;
use crate::text::{chars_of, parse_u8, parse_u8_spec};

verus! {

/// The settings of a remote controller: server address, desired slot and
/// player name.
pub open spec fn controller_settings_from(
    args: Seq<Seq<char>>,
    i: int,
    server: Seq<char>,
    slot: Option<u8>,
    name: Seq<char>,
) -> (Seq<char>, Option<u8>, Seq<char>)
    decreases args.len() - i,
{
    if i < 0 || i >= args.len() {
        (server, slot, name)
    } else if i + 1 < args.len() && args[i] == "--server"@ {
        controller_settings_from(args, i + 2, args[i + 1], slot, name)
    } else if i + 1 < args.len() && args[i] == "--slot"@ {
        controller_settings_from(args, i + 2, server, parse_u8_spec(args[i + 1]), name)
    } else if i + 1 < args.len() && args[i] == "--name"@ {
        controller_settings_from(args, i + 2, server, slot, args[i + 1])
    } else if args[i] == "--server"@ || args[i] == "--slot"@ || args[i] == "--name"@ {
        (server, slot, name)
    } else {
        controller_settings_from(args, i + 1, server, slot, name)
    }
}

/// Law: reading the controller's command line skips any argument that is
/// not an option and reads on; an option followed by a value sets its
/// setting to that value (the slot to the value parsed as a number) and
/// reads on after the value.
pub proof fn lemma_controller_args_read_on(
    args: Seq<Seq<char>>,
    i: int,
    server: Seq<char>,
    slot: Option<u8>,
    name: Seq<char>,
)
    requires
        0 <= i < args.len(),
    ensures
        args[i] != "--server"@ && args[i] != "--slot"@ && args[i] != "--name"@
            ==> controller_settings_from(args, i, server, slot, name) == controller_settings_from(
            args,
            i + 1,
            server,
            slot,
            name,
        ),
        i + 1 < args.len() && args[i] == "--server"@ ==> controller_settings_from(
            args,
            i,
            server,
            slot,
            name,
        ) == controller_settings_from(args, i + 2, args[i + 1], slot, name),
        i + 1 < args.len() && args[i] == "--slot"@ ==> controller_settings_from(
            args,
            i,
            server,
            slot,
            name,
        ) == controller_settings_from(args, i + 2, server, parse_u8_spec(args[i + 1]), name),
        i + 1 < args.len() && args[i] == "--name"@ ==> controller_settings_from(
            args,
            i,
            server,
            slot,
            name,
        ) == controller_settings_from(args, i + 2, server, slot, args[i + 1]),
{
    reveal_strlit("--server");
    reveal_strlit("--slot");
    reveal_strlit("--name");
    assert("--server"@ != "--slot"@) by {
        assert("--server"@.len() != "--slot"@.len());
    }
    assert("--server"@ != "--name"@) by {
        assert("--server"@[2] != "--name"@[2]);
    }
    assert("--slot"@ != "--name"@) by {
        assert("--slot"@[2] != "--name"@[2]);
    }
}

/// Reads a controller's command line `args` (the program name first):
/// `--server <addr>` (default `127.0.0.1:6000`), `--slot <n>` (a slot number,
/// none if it does not parse), `--name <name>` (default `default_name`).
/// Anything else is ignored; the last of each option wins.
pub fn parse_args(args: &[String], default_name: String) -> (r: (String, Option<u8>, String))
    ensures
        controller_settings_from(arg_texts(args@), 1, "127.0.0.1:6000"@, None, default_name@) == (
        r.0@, r.1, r.2@),
{
    let server_flag = String::from_str("--server");
    let slot_flag = String::from_str("--slot");
    let name_flag = String::from_str("--name");
    let mut server = String::from_str("127.0.0.1:6000");
    let mut slot: Option<u8> = None;
    let mut name = default_name;
    let mut i: usize = 1;
    while i < args.len()
        invariant
            1 <= i,
            server_flag@ == "--server"@,
            slot_flag@ == "--slot"@,
            name_flag@ == "--name"@,
            controller_settings_from(
                arg_texts(args@),
                1,
                "127.0.0.1:6000"@,
                None,
                default_name@,
            ) == controller_settings_from(arg_texts(args@), i as int, server@, slot, name@),
        decreases args@.len() - i,
    {
        assert(arg_texts(args@)[i as int] == args@[i as int]@);
        let is_server = args[i] == server_flag;
        let is_slot = args[i] == slot_flag;
        let is_name = args[i] == name_flag;
        if is_server || is_slot || is_name {
            if i + 1 >= args.len() {
                return (server, slot, name);
            }
            assert(arg_texts(args@)[i + 1] == args@[i + 1]@);
            let value = args[i + 1].clone();
            if is_server {
                server = value;
            } else if is_slot {
                let chars = chars_of(value.as_str());
                slot = parse_u8(chars.as_slice());
            } else {
                name = value;
            }
            i += 2;
        } else {
            i += 1;
        }
    }
    (server, slot, name)
}

/// The skill whose number key (1 to 4) was pressed, the lowest number first.
pub fn skill_for_number_keys(key1: bool, key2: bool, key3: bool, key4: bool) -> (r: Option<SkillKind>)
    ensures
        r == if key1 {
            Some(SkillKind::Jetpack)
        } else if key2 {
            Some(SkillKind::Heavy)
        } else if key3 {
            Some(SkillKind::Triple)
        } else if key4 {
            Some(SkillKind::Scatter)
        } else {
            None::<SkillKind>
        },
{
    if key1 {
        Some(SkillKind::Jetpack)
    } else if key2 {
        Some(SkillKind::Heavy)
    } else if key3 {
        Some(SkillKind::Triple)
    } else if key4 {
        Some(SkillKind::Scatter)
    } else {
        None
    }
}

/// What a remote controller knows of its connection: the slot it asked
/// for, the slot the host gave it, and its player name.
pub struct ControllerSession {
    desired_slot: Option<u8>,
    assigned_slot: Option<u8>,
    name: String,
}

impl ControllerSession {
    pub closed spec fn desired(&self) -> Option<u8> {
        self.desired_slot
    }

    pub closed spec fn assigned(&self) -> Option<u8> {
        self.assigned_slot
    }

    pub closed spec fn player_name(&self) -> Seq<char> {
        self.name@
    }

    /// A session that has not been given a slot yet.
    pub fn new(desired_slot: Option<u8>, name: String) -> (r: Self)
        ensures
            r.desired() == desired_slot,
            r.assigned() is None,
            r.player_name() == name@,
    {
        ControllerSession { desired_slot, assigned_slot: None, name }
    }

    /// The host has given this controller a slot.
    pub fn is_ready(&self) -> (r: bool)
        ensures
            r == self.assigned() is Some,
    {
        self.assigned_slot.is_some()
    }

    /// The slot the host gave this controller.
    pub fn slot(&self) -> (r: Option<u8>)
        ensures
            r == self.assigned(),
    {
        self.assigned_slot
    }

    /// Takes in a reply of the host: an acknowledgement assigns its slot, a
    /// refusal drops any slot.
    pub fn handle_reply(&mut self, packet: ServerPacket)
        ensures
            final(self).desired() == old(self).desired(),
            final(self).player_name() == old(self).player_name(),
            final(self).assigned() == match packet {
                ServerPacket::Ack { slot, .. } => Some(slot),
                ServerPacket::Reject { .. } => None,
            },
    {
        match packet {
            ServerPacket::Ack { slot, .. } => {
                self.assigned_slot = Some(slot);
            },
            ServerPacket::Reject { .. } => {
                self.assigned_slot = None;
            },
        }
    }

    /// Whether to ask for a slot again: while none is given and the resend
    /// interval has passed since the last request.
    pub fn should_resend_join(&self, interval_passed: bool) -> (r: bool)
        ensures
            r == (self.assigned() is None && interval_passed),
    {
        !self.is_ready() && interval_passed
    }

    /// The request for a slot.
    pub fn join_packet(&self) -> (r: ClientPacket)
        ensures
            match r {
                ClientPacket::Join { desired_slot, name } => desired_slot == self.desired()
                    && name@ == self.player_name(),
                _ => false,
            },
    {
        ClientPacket::Join { desired_slot: self.desired_slot, name: self.name.clone() }
    }

    /// The packet carrying `state`, once a slot is given.
    pub fn input_packet(&self, state: ControlState) -> (r: Option<ClientPacket>)
        ensures
            match self.assigned() {
                Some(slot) => r == Some(ClientPacket::Input { slot, state }),
                None => r is None,
            },
    {
        match self.assigned_slot {
            Some(slot) => Some(ClientPacket::Input { slot, state }),
            None => None,
        }
    }
}

} // verus!
