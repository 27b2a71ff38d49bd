use vstd::prelude::*;

use crate::controls::{idle_state, ControlState};
use crate::net::protocol::{ClientPacket, ServerPacket};

verus! {

/// The slot of the player at the host's own keyboard; no remote controller
/// may take it.
pub const LOCAL_SLOT: usize = 0;

/// A remote slot whose controller has been silent for longer than this many
/// nanoseconds is freed.
pub const SLOT_TIMEOUT_NANOS: u64 = 5_000_000_000;

/// The socket address a datagram came from, as plain values.
#[derive(Clone, Copy, Debug, PartialEq, Eq, Structural)]
#[allow(inconsistent_fields)]
pub enum PeerAddr {
    V4 { ip: u32, port: u16 },
    V6 { ip: u128, port: u16, flowinfo: u32, scope_id: u32 },
}

/// Who drives a player slot, and when it was last heard from (nanoseconds
/// on the host's monotonic clock).
#[derive(Debug)]
pub struct SlotInfo {
    pub addr: Option<PeerAddr>,
    pub name: Option<String>,
    pub last_seen: Option<u64>,
}

/// A slot that no controller holds.
pub open spec fn empty_slot() -> SlotInfo {
    SlotInfo { addr: None, name: None, last_seen: None }
}

impl SlotInfo {
    fn empty() -> (r: Self)
        ensures
            r == empty_slot(),
    {
        SlotInfo { addr: None, name: None, last_seen: None }
    }
}

impl Default for SlotInfo {
    fn default() -> (r: Self)
        ensures
            r == empty_slot(),
    {
        SlotInfo::empty()
    }
}

/// Slot `i` is a remote slot that no controller holds.
pub open spec fn is_free_remote(slots: Seq<SlotInfo>, i: int) -> bool {
    i != LOCAL_SLOT && 0 <= i < slots.len() && slots[i].addr is None
}

/// The first free remote slot at index `from` or later.
pub open spec fn free_slot_from(slots: Seq<SlotInfo>, from: int) -> Option<int>
    decreases slots.len() - from,
{
    if from < 0 || from >= slots.len() {
        None
    } else if is_free_remote(slots, from) {
        Some(from)
    } else {
        free_slot_from(slots, from + 1)
    }
}

/// The first free remote slot.
pub open spec fn first_free_slot(slots: Seq<SlotInfo>) -> Option<int> {
    free_slot_from(slots, LOCAL_SLOT + 1)
}

/// The slot a join asking for `desired` gets: the desired one if it is a
/// free remote slot, else the first free remote slot.
pub open spec fn join_slot(slots: Seq<SlotInfo>, desired: Option<u8>) -> Option<int> {
    match desired {
        Some(d) if is_free_remote(slots, d as int) => Some(d as int),
        _ => first_free_slot(slots),
    }
}

/// A controller last heard from at `last` has timed out at `now`.
pub open spec fn timed_out(last: u64, now: u64) -> bool {
    now - last > SLOT_TIMEOUT_NANOS
}

/// Slot `i` is a remote slot whose controller has timed out at `now`.
pub open spec fn expires(slots: Seq<SlotInfo>, i: int, now: u64) -> bool {
    i != LOCAL_SLOT && 0 <= i < slots.len() && match slots[i].last_seen {
        Some(t) => timed_out(t, now),
        None => false,
    }
}

/// `reply` refuses a join, giving `text` as the reason.
pub open spec fn is_reject_with(reply: ServerPacket, text: Seq<char>) -> bool {
    match reply {
        ServerPacket::Reject { reason } => reason@ == text,
        _ => false,
    }
}

/// How a join from `addr` asking for `desired` changes the table (`slots`,
/// `states` before, `slots2`, `states2` after) and what it answers: refused
/// while no slots are configured or none is free; otherwise the chosen slot
/// is taken by `addr`, its input made idle, and the slot acknowledged.
pub open spec fn joined(
    slots: Seq<SlotInfo>,
    states: Seq<ControlState>,
    slots2: Seq<SlotInfo>,
    states2: Seq<ControlState>,
    addr: PeerAddr,
    desired: Option<u8>,
    name: String,
    now: u64,
    reply: ServerPacket,
) -> bool {
    if slots.len() == 0 {
        slots2 == slots && states2 == states && is_reject_with(reply, "game not ready"@)
    } else {
        match join_slot(slots, desired) {
            None => slots2 == slots && states2 == states && is_reject_with(
                reply,
                "no available slots"@,
            ),
            Some(idx) => {
                &&& slots2 == slots.update(
                    idx,
                    SlotInfo { addr: Some(addr), name: Some(name), last_seen: Some(now) },
                )
                &&& states2 == if idx < states.len() {
                    states.update(idx, idle_state())
                } else {
                    states
                }
                &&& reply == ServerPacket::Ack { slot: idx as u8, total_slots: states.len() as u8 }
            },
        }
    }
}

/// How input `state` for `slot` from `addr` changes the table: it is taken
/// only for a remote slot that `addr` holds, and marks that slot as heard
/// from at `now`; otherwise nothing changes.
pub open spec fn input_taken(
    slots: Seq<SlotInfo>,
    states: Seq<ControlState>,
    slots2: Seq<SlotInfo>,
    states2: Seq<ControlState>,
    addr: PeerAddr,
    slot: usize,
    state: ControlState,
    now: u64,
) -> bool {
    let s = slot as int;
    let accepted = s != LOCAL_SLOT && s < slots.len() && slots[s].addr == Some(addr);
    &&& slots2 == if accepted {
        slots.update(s, SlotInfo { last_seen: Some(now), ..slots[s] })
    } else {
        slots
    }
    &&& states2 == if accepted && s < states.len() {
        states.update(s, state)
    } else {
        states
    }
}

/// The table of player slots that remote controllers drive, with the input
/// each last sent.
pub struct InputSlots {
    slots: Vec<SlotInfo>,
    states: Vec<ControlState>,
}

impl InputSlots {
    pub closed spec fn slots(&self) -> Seq<SlotInfo> {
        self.slots@
    }

    pub closed spec fn states(&self) -> Seq<ControlState> {
        self.states@
    }

    /// A table with no slots: every join is refused until slots are configured.
    pub fn new() -> (r: Self)
        ensures
            r.slots().len() == 0,
            r.states().len() == 0,
    {
        InputSlots { slots: Vec::new(), states: Vec::new() }
    }

    /// Makes `count` free slots, each with idle input.
    pub fn configure_slots(&mut self, count: usize)
        ensures
            final(self).slots().len() == count,
            final(self).states().len() == count,
            forall|i: int| 0 <= i < count ==> #[trigger] final(self).slots()[i] == empty_slot(),
            forall|i: int| 0 <= i < count ==> #[trigger] final(self).states()[i] == idle_state(),
    {
        let mut slots: Vec<SlotInfo> = Vec::new();
        let mut states: Vec<ControlState> = Vec::new();
        let mut i: usize = 0;
        while i < count
            invariant
                i <= count,
                slots@.len() == i,
                states@.len() == i,
                forall|j: int| 0 <= j < i ==> #[trigger] slots@[j] == empty_slot(),
                forall|j: int| 0 <= j < i ==> #[trigger] states@[j] == idle_state(),
            decreases count - i,
        {
            slots.push(SlotInfo::default());
            states.push(ControlState::idle());
            i += 1;
        }
        self.slots = slots;
        self.states = states;
    }

    /// Copies the input of every slot into the entry of `target` with the
    /// same index, where `target` has one.
    pub fn fill_states(&self, target: &mut [ControlState])
        ensures
            final(target)@.len() == old(target)@.len(),
            forall|i: int|
                0 <= i < old(target)@.len() ==> #[trigger] final(target)@[i] == if i
                    < self.states().len() {
                    self.states()[i]
                } else {
                    old(target)@[i]
                },
    {
        let mut idx: usize = 0;
        while idx < self.states.len()
            invariant
                idx <= self.states@.len(),
                target@.len() == old(target)@.len(),
                forall|i: int|
                    0 <= i < target@.len() ==> #[trigger] target@[i] == if i < idx {
                        self.states@[i]
                    } else {
                        old(target)@[i]
                    },
            decreases self.states@.len() - idx,
        {
            if idx < target.len() {
                target[idx] = self.states[idx];
            }
            idx += 1;
        }
    }

    /// The input of slot `index`, idle where there is no such slot.
    pub fn state_for(&self, index: usize) -> (r: ControlState)
        ensures
            r == if index < self.states().len() {
                self.states()[index as int]
            } else {
                idle_state()
            },
    {
        if index < self.states.len() {
            self.states[index]
        } else {
            ControlState::idle()
        }
    }

    /// `slot` if it is a remote slot that no controller holds.
    pub fn validate_slot(&self, slot: usize) -> (r: Option<usize>)
        ensures
            r == if is_free_remote(self.slots(), slot as int) {
                Some(slot)
            } else {
                None::<usize>
            },
    {
        if slot == LOCAL_SLOT || slot >= self.slots.len() {
            return None;
        }
        match self.slots[slot].addr {
            None => Some(slot),
            Some(_) => None,
        }
    }

    /// The first remote slot that no controller holds.
    pub fn first_available_slot(&self) -> (r: Option<usize>)
        ensures
            r matches Some(i) ==> first_free_slot(self.slots()) == Some(i as int) && is_free_remote(
                self.slots(),
                i as int,
            ),
            r is None ==> first_free_slot(self.slots()) is None,
    {
        let mut idx: usize = LOCAL_SLOT + 1;
        while idx < self.slots.len()
            invariant
                LOCAL_SLOT + 1 <= idx,
                first_free_slot(self.slots@) == free_slot_from(self.slots@, idx as int),
            decreases self.slots@.len() - idx,
        {
            if self.slots[idx].addr.is_none() {
                return Some(idx);
            }
            idx += 1;
        }
        None
    }

    /// Frees every remote slot whose controller has timed out at `now`, and
    /// makes its input idle.
    pub fn cleanup_timeouts(&mut self, now: u64)
        ensures
            final(self).slots().len() == old(self).slots().len(),
            final(self).states().len() == old(self).states().len(),
            forall|i: int|
                0 <= i < old(self).slots().len() ==> #[trigger] final(self).slots()[i] == if expires(
                    old(self).slots(),
                    i,
                    now,
                ) {
                    empty_slot()
                } else {
                    old(self).slots()[i]
                },
            forall|i: int|
                0 <= i < old(self).states().len() ==> #[trigger] final(self).states()[i] == if expires(
                    old(self).slots(),
                    i,
                    now,
                ) {
                    idle_state()
                } else {
                    old(self).states()[i]
                },
    {
        let ghost old_slots = self.slots@;
        let ghost old_states = self.states@;
        let mut idx: usize = 0;
        while idx < self.slots.len()
            invariant
                idx <= self.slots@.len(),
                self.slots@.len() == old_slots.len(),
                self.states@.len() == old_states.len(),
                forall|i: int|
                    0 <= i < old_slots.len() ==> #[trigger] self.slots@[i] == if i < idx && expires(
                        old_slots,
                        i,
                        now,
                    ) {
                        empty_slot()
                    } else {
                        old_slots[i]
                    },
                forall|i: int|
                    0 <= i < old_states.len() ==> #[trigger] self.states@[i] == if i < idx
                        && expires(old_slots, i, now) {
                        idle_state()
                    } else {
                        old_states[i]
                    },
            decreases old_slots.len() - idx,
        {
            if idx != LOCAL_SLOT {
                if let Some(last) = self.slots[idx].last_seen {
                    if now > last && now - last > SLOT_TIMEOUT_NANOS {
                        self.slots[idx] = SlotInfo::empty();
                        if idx < self.states.len() {
                            self.states[idx] = ControlState::idle();
                        }
                    }
                }
            }
            idx += 1;
        }
    }

    /// A controller at `addr` named `name` asks for a slot, preferably
    /// `desired`, at time `now`. The reply to send back is returned.
    pub fn handle_join(&mut self, addr: PeerAddr, desired: Option<u8>, name: String, now: u64) -> (reply: ServerPacket)
        ensures
            joined(old(self).slots(), old(self).states(), final(self).slots(), final(self).states(), addr, desired, name, now, reply),
    {
        if self.slots.len() == 0 {
            return ServerPacket::Reject { reason: String::from_str("game not ready") };
        }
        let slot = match desired {
            Some(value) => match self.validate_slot(value as usize) {
                Some(idx) => Some(idx),
                None => self.first_available_slot(),
            },
            None => self.first_available_slot(),
        };
        match slot {
            Some(idx) => {
                self.slots[idx] = SlotInfo { addr: Some(addr), name: Some(name), last_seen: Some(now) };
                if idx < self.states.len() {
                    self.states[idx] = ControlState::idle();
                }
                let total = #[verifier::truncate] (self.states.len() as u8);
                ServerPacket::Ack { slot: #[verifier::truncate] (idx as u8), total_slots: total }
            },
            None => ServerPacket::Reject { reason: String::from_str("no available slots") },
        }
    }

    /// Input `state` for `slot` arrives from `addr` at time `now`: it is
    /// taken only for a remote slot held by `addr`.
    pub fn handle_input(&mut self, addr: PeerAddr, slot: usize, state: ControlState, now: u64)
        ensures
            input_taken(old(self).slots(), old(self).states(), final(self).slots(), final(self).states(), addr, slot, state, now),
    {
        if slot == LOCAL_SLOT {
            return;
        }
        if slot < self.slots.len() {
            match self.slots[slot].addr {
                Some(current) if current == addr => {
                    if slot < self.states.len() {
                        self.states[slot] = state;
                    }
                    self.slots[slot].last_seen = Some(now);
                },
                _ => {},
            }
        }
    }

    /// Handles one packet from `addr` at time `now`; returns the reply to
    /// send, if any.
    pub fn handle_packet(&mut self, packet: ClientPacket, addr: PeerAddr, now: u64) -> (reply: Option<ServerPacket>)
        ensures
            match packet {
                ClientPacket::Join { desired_slot, name } => reply matches Some(r) && joined(
                    old(self).slots(),
                    old(self).states(),
                    final(self).slots(),
                    final(self).states(),
                    addr,
                    desired_slot,
                    name,
                    now,
                    r,
                ),
                ClientPacket::Input { slot, state } => reply is None && input_taken(
                    old(self).slots(),
                    old(self).states(),
                    final(self).slots(),
                    final(self).states(),
                    addr,
                    slot as usize,
                    state,
                    now,
                ),
            },
    {
        match packet {
            ClientPacket::Join { desired_slot, name } => Some(
                self.handle_join(addr, desired_slot, name, now),
            ),
            ClientPacket::Input { slot, state } => {
                self.handle_input(addr, slot as usize, state, now);
                None
            },
        }
    }
}

pub proof fn lemma_free_slot_from(slots: Seq<SlotInfo>, from: int)
    requires
        0 <= from,
    ensures
        free_slot_from(slots, from) matches Some(i) ==> from <= i && is_free_remote(slots, i)
            && forall|j: int| from <= j < i ==> !is_free_remote(slots, j),
        free_slot_from(slots, from) is None ==> forall|j: int|
            from <= j ==> !is_free_remote(slots, j),
    decreases slots.len() - from,
{
    if from < slots.len() && !is_free_remote(slots, from) {
        lemma_free_slot_from(slots, from + 1);
    }
}

/// Law: a join is acknowledged exactly when some remote slot is free, and the
/// slot it gets was free.
pub proof fn lemma_join_needs_free_slot(slots: Seq<SlotInfo>, desired: Option<u8>)
    ensures
        join_slot(slots, desired) is Some <==> exists|i: int| is_free_remote(slots, i),
        join_slot(slots, desired) matches Some(i) ==> is_free_remote(slots, i),
{
    lemma_free_slot_from(slots, LOCAL_SLOT + 1);
    if exists|i: int| is_free_remote(slots, i) {
        let i = choose|i: int| is_free_remote(slots, i);
        assert(LOCAL_SLOT + 1 <= i);
    }
}

/// Law: a join never takes the local slot nor a slot that a controller
/// holds; every other slot and its input stay as they were.
pub proof fn lemma_join_spares_held_slots(
    slots: Seq<SlotInfo>,
    states: Seq<ControlState>,
    slots2: Seq<SlotInfo>,
    states2: Seq<ControlState>,
    addr: PeerAddr,
    desired: Option<u8>,
    name: String,
    now: u64,
    reply: ServerPacket,
    i: int,
)
    requires
        joined(slots, states, slots2, states2, addr, desired, name, now, reply),
        0 <= i < slots.len(),
        i == LOCAL_SLOT || slots[i].addr is Some,
    ensures
        slots2[i] == slots[i],
        i < states.len() ==> states2[i] == states[i],
{
    lemma_join_needs_free_slot(slots, desired);
}

/// Law: an acknowledged join gives the controller a free remote slot and
/// counts the join as hearing from it: the slot is held by `addr` under
/// `name`, last heard from at `now`, and so expires at every later time more
/// than the timeout after `now` unless input comes in between.
pub proof fn lemma_join_marks_heard(
    slots: Seq<SlotInfo>,
    states: Seq<ControlState>,
    slots2: Seq<SlotInfo>,
    states2: Seq<ControlState>,
    addr: PeerAddr,
    desired: Option<u8>,
    name: String,
    now: u64,
    reply: ServerPacket,
)
    requires
        joined(slots, states, slots2, states2, addr, desired, name, now, reply),
        reply is Ack,
    ensures
        exists|i: int|
            #![trigger slots2[i]]
            0 <= i < slots.len() && i != LOCAL_SLOT && slots[i].addr is None && slots2[i].addr
                == Some(addr) && slots2[i].name == Some(name) && slots2[i].last_seen == Some(now)
                && forall|t: u64| t - now > SLOT_TIMEOUT_NANOS ==> #[trigger] expires(slots2, i, t),
{
    lemma_join_needs_free_slot(slots, desired);
    assert(slots.len() > 0) by {
        if slots.len() == 0 {
            assert(is_reject_with(reply, "game not ready"@));
        }
    }
    if join_slot(slots, desired) is None {
        assert(is_reject_with(reply, "no available slots"@));
    }
    let i = join_slot(slots, desired)->0;
    assert(slots2[i].last_seen == Some(now));
}

/// Law: input changes only the slot that the sending address holds, and
/// never the local slot.
pub proof fn lemma_input_only_from_holder(
    slots: Seq<SlotInfo>,
    states: Seq<ControlState>,
    slots2: Seq<SlotInfo>,
    states2: Seq<ControlState>,
    addr: PeerAddr,
    slot: usize,
    state: ControlState,
    now: u64,
    i: int,
)
    requires
        input_taken(slots, states, slots2, states2, addr, slot, state, now),
        0 <= i < states.len(),
        i == LOCAL_SLOT || i != slot || !(i < slots.len() && slots[i].addr == Some(addr)),
    ensures
        states2[i] == states[i],
{
}

} // verus!
