//! The decisions of the rolling-ball controller: which mode each remote
//! reading selects, and which table position the ball is steered to.

use crate::rc::DjiSBusPacket;
use crate::screen::screen_target;
use crate::signal::{TargetSignal, target_slot};
use vstd::prelude::*;

verus! {

/// The number of entries in the table of ball positions.
pub const POSITION_COUNT: usize = 10;

/// The position selected at start and by the left switch held down.
pub const HOME_POSITION: usize = 5;

/// A stick pushed to its end reads this far from the centre.
pub const STICK_END: i16 = 660;

/// Resetting a pair of controllers to a clean state.
pub trait ClearPID {
    fn clear(&mut self);
}

/// What the controller does with one remote reading.
#[derive(Clone, Copy, Debug, PartialEq, Eq, Structural)]
pub enum ControlAction {
    /// Clear the controllers and drive the servos from the right stick;
    /// first record the stick position as the angle offset when asked.
    Manual { record_offset: bool },
    /// Clear the controllers and leave the servos as they are this cycle.
    ManualHold,
    /// Steer the ball to the selected position with the camera.
    Vision,
    /// Clear the controllers and stop driving the servos; first reset the
    /// angle offset when asked.
    Stop { reset_offset: bool },
}

/// The controller's memory between readings: whether holding the left
/// switch down will record the angle offset.
pub struct ControlState {
    pub record_armed: bool,
}

/// The action for a reading and whether recording is armed afterwards.
///
/// The right switch selects the mode: 0 manual, 1 vision, otherwise stop.
/// In manual mode the left switch held down records the offset once; it is
/// armed again when the left switch leaves that position.
pub open spec fn control_step_spec(armed: bool, rc: DjiSBusPacket) -> (ControlAction, bool) {
    if rc.sw_right == 0 {
        if rc.sw_left == -1 && armed {
            (ControlAction::Manual { record_offset: true }, false)
        } else if rc.sw_left != -1 {
            (ControlAction::Manual { record_offset: false }, true)
        } else {
            (ControlAction::ManualHold, armed)
        }
    } else if rc.sw_right == 1 {
        (ControlAction::Vision, armed)
    } else {
        (ControlAction::Stop { reset_offset: rc.sw_left == -1 }, armed)
    }
}

/// What a take from a signal holding `slot` gives.
pub open spec fn slot_value(slot: Seq<u8>) -> Option<u8> {
    if slot.len() == 0 {
        None
    } else {
        Some(slot[0])
    }
}

/// The position after a screen choice and a remote reading: a number from
/// 1 to 9 chosen on the screen selects that position; then the left switch
/// held down selects `HOME_POSITION`, the left stick pushed fully left,
/// right or up selects 2, 6 or 9, the later rule winning.
pub open spec fn next_position_spec(pos: usize, screen: Option<u8>, rc: DjiSBusPacket) -> usize {
    let p1 = match screen {
        Some(v) => if 1 <= v <= 9 {
            v as usize
        } else {
            pos
        },
        None => pos,
    };
    let p2 = if rc.sw_left == -1 {
        HOME_POSITION
    } else {
        p1
    };
    let p3 = if rc.ch_l_hori == -STICK_END {
        2
    } else {
        p2
    };
    let p4 = if rc.ch_l_hori == STICK_END {
        6
    } else {
        p3
    };
    if rc.ch_l_vert == STICK_END {
        9
    } else {
        p4
    }
}

impl ControlState {
    /// At start, recording is armed.
    pub fn new() -> (s: ControlState)
        ensures
            s.record_armed,
    {
        ControlState { record_armed: true }
    }

    /// The action for one remote reading.
    pub fn step(&mut self, rc: &DjiSBusPacket) -> (a: ControlAction)
        ensures
            (a, final(self).record_armed) == control_step_spec(old(self).record_armed, *rc),
    {
        if rc.sw_right == 0 {
            if rc.sw_left == -1 && self.record_armed {
                self.record_armed = false;
                ControlAction::Manual { record_offset: true }
            } else if rc.sw_left != -1 {
                self.record_armed = true;
                ControlAction::Manual { record_offset: false }
            } else {
                ControlAction::ManualHold
            }
        } else if rc.sw_right == 1 {
            ControlAction::Vision
        } else {
            ControlAction::Stop { reset_offset: rc.sw_left == -1 }
        }
    }
}

/// Updates the selected position from the screen and the remote.
pub fn next_position(position: &mut usize, target: &mut TargetSignal, rc: &DjiSBusPacket)
    ensures
        *final(position) == next_position_spec(
            *old(position),
            slot_value(target_slot(*old(target))),
            *rc,
        ),
        target_slot(*final(target)) == Seq::<u8>::empty(),
{
    if let Some(sc) = screen_target(target) {
        if 1 <= sc && sc <= 9 {
            *position = sc as usize;
        }
    }
    if rc.sw_left == -1 {
        *position = HOME_POSITION;
    }
    if rc.ch_l_hori == -STICK_END {
        *position = 2;
    }
    if rc.ch_l_hori == STICK_END {
        *position = 6;
    }
    if rc.ch_l_vert == STICK_END {
        *position = 9;
    }
}

/// A selected position stays an index into the table, and a position from 1
/// to 9 stays one.
pub proof fn lemma_position_in_table(pos: usize, screen: Option<u8>, rc: DjiSBusPacket)
    ensures
        pos < POSITION_COUNT ==> next_position_spec(pos, screen, rc) < POSITION_COUNT,
        1 <= pos <= 9 ==> 1 <= next_position_spec(pos, screen, rc) <= 9,
{
}

/// Holding the left switch down records the offset once: the reading after a
/// recording, if it asks again, does not record.
pub proof fn lemma_record_once(armed: bool, rc1: DjiSBusPacket, rc2: DjiSBusPacket)
    requires
        control_step_spec(armed, rc1).0 == (ControlAction::Manual { record_offset: true }),
    ensures
        control_step_spec(control_step_spec(armed, rc1).1, rc2).0 != (ControlAction::Manual {
            record_offset: true,
        }),
{
}

/// The right switch alone selects the mode: 1 steers with the camera, 0 is
/// manual, anything else stops, whatever the left switch and the sticks
/// read.  Only manual mode changes whether recording is armed: it is armed
/// afterwards exactly when the left switch is not held down; the offset is
/// recorded exactly when the switch is held down and recording was armed;
/// stopping resets the offset exactly when the left switch is held down.
pub proof fn lemma_right_switch_selects_mode(armed: bool, rc: DjiSBusPacket)
    ensures
        (control_step_spec(armed, rc).0 == ControlAction::Vision) <==> rc.sw_right == 1,
        rc.sw_right == 0 <==> (control_step_spec(armed, rc).0 is Manual || control_step_spec(
            armed,
            rc,
        ).0 == ControlAction::ManualHold),
        (control_step_spec(armed, rc).0 is Stop) <==> (rc.sw_right != 0 && rc.sw_right != 1),
        rc.sw_right != 0 ==> control_step_spec(armed, rc).1 == armed,
        rc.sw_right == 0 ==> control_step_spec(armed, rc).1 == (rc.sw_left != -1),
        rc.sw_right == 0 ==> ((control_step_spec(armed, rc).0 == ControlAction::Manual {
            record_offset: true,
        }) <==> (armed && rc.sw_left == -1)),
        rc.sw_right == 0 ==> ((control_step_spec(armed, rc).0 == ControlAction::ManualHold) <==> (
        !armed && rc.sw_left == -1)),
        control_step_spec(armed, rc).0 is Stop ==> control_step_spec(armed, rc).0->reset_offset
            == (rc.sw_left == -1),
{
}

/// With the left switch not held down and the left stick not pushed to an
/// end, a number 1 to 9 taken from the screen selects that position, and any
/// other number, or none, keeps the position.
pub proof fn lemma_screen_selects_position(pos: usize, v: u8, rc: DjiSBusPacket)
    requires
        rc.sw_left != -1,
        rc.ch_l_hori != -660,
        rc.ch_l_hori != 660,
        rc.ch_l_vert != 660,
    ensures
        1 <= v <= 9 ==> next_position_spec(pos, Some(v), rc) == v,
        !(1 <= v <= 9) ==> next_position_spec(pos, Some(v), rc) == pos,
        next_position_spec(pos, None, rc) == pos,
{
}

/// The remote overrides the screen: the left stick pushed fully up selects
/// 9; else fully right 6; else fully left 2; else the left switch held down
/// selects 5.
pub proof fn lemma_remote_overrides_screen(pos: usize, screen: Option<u8>, rc: DjiSBusPacket)
    ensures
        rc.ch_l_vert == 660 ==> next_position_spec(pos, screen, rc) == 9,
        rc.ch_l_vert != 660 && rc.ch_l_hori == 660 ==> next_position_spec(pos, screen, rc) == 6,
        rc.ch_l_vert != 660 && rc.ch_l_hori == -660 ==> next_position_spec(pos, screen, rc) == 2,
        rc.ch_l_vert != 660 && rc.ch_l_hori != 660 && rc.ch_l_hori != -660 && rc.sw_left == -1
            ==> next_position_spec(pos, screen, rc) == 5,
{
}

} // verus!
