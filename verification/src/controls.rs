use vstd::prelude::*;

use crate::skills::SkillKind;

verus! {

/// One frame of a player's input: movement, aiming, charging, and an
/// optional skill button press.
#[derive(Clone, Copy, Debug)]
pub struct ControlState {
    pub move_axis: i8,
    pub aim_up: bool,
    pub aim_down: bool,
    pub start_charge: bool,
    pub release_charge: bool,
    pub skill_command: Option<SkillCommand>,
}

/// The input of a frame in which nothing is pressed.
pub open spec fn idle_state() -> ControlState {
    ControlState {
        move_axis: 0,
        aim_up: false,
        aim_down: false,
        start_charge: false,
        release_charge: false,
        skill_command: None,
    }
}

impl Default for ControlState {
    fn default() -> (r: Self)
        ensures
            r == idle_state(),
    {
        ControlState {
            move_axis: 0,
            aim_up: false,
            aim_down: false,
            start_charge: false,
            release_charge: false,
            skill_command: None,
        }
    }
}

/// The movement direction that the left and right keys give: -1, 0 or 1.
pub open spec fn axis_of(left: bool, right: bool) -> i8 {
    if left && !right {
        -1i8
    } else if right && !left {
        1
    } else {
        0
    }
}

/// Law: the movement axis is +1 for the right key, -1 for the left key,
/// both added up: no key (or both) stands still.
pub proof fn lemma_axis_sums_keys(left: bool, right: bool)
    ensures
        axis_of(left, right) as int == (if right {
            1int
        } else {
            0int
        }) - (if left {
            1int
        } else {
            0int
        }),
{
}

impl ControlState {
    /// The input of a frame from the keys that are down or were pressed:
    /// idle unless `active`; the movement axis from the left and right keys,
    /// the rest as given.
    pub fn from_keys(
        active: bool,
        left: bool,
        right: bool,
        aim_up: bool,
        aim_down: bool,
        start_charge: bool,
        release_charge: bool,
        skill: Option<SkillKind>,
    ) -> (r: Self)
        ensures
            !active ==> r == idle_state(),
            active ==> r == (ControlState {
                move_axis: axis_of(left, right),
                aim_up,
                aim_down,
                start_charge,
                release_charge,
                skill_command: match skill {
                    Some(k) => Some(SkillCommand::Toggle(k)),
                    None => None,
                },
            }),
    {
        if !active {
            return ControlState::idle();
        }
        let mut move_axis: i8 = 0;
        if left {
            move_axis -= 1;
        }
        if right {
            move_axis += 1;
        }
        move_axis = if move_axis < -1 {
            -1
        } else if move_axis > 1 {
            1
        } else {
            move_axis
        };
        let mut state = ControlState {
            move_axis,
            aim_up,
            aim_down,
            start_charge,
            release_charge,
            skill_command: None,
        };
        if let Some(k) = skill {
            state.skill_command = Some(SkillCommand::Toggle(k));
        }
        state
    }

    /// No input at all.
    pub fn idle() -> (r: Self)
        ensures
            r == idle_state(),
    {
        Self::default()
    }
}

/// A skill button press sent along with the input.
#[derive(Clone, Copy, Debug)]
pub enum SkillCommand {
    Toggle(SkillKind),
}

impl SkillCommand {
    /// The skill whose button was pressed.
    pub fn kind(self) -> (r: SkillKind)
        ensures
            r == match self {
                SkillCommand::Toggle(k) => k,
            },
    {
        match self {
            SkillCommand::Toggle(kind) => kind,
        }
    }
}

} // verus!
