//! The main loop's choice of what to do after a frame: switch to the next
//! world, report the frame rate, or nothing.

use vstd::prelude::*;

verus! {

/// What the main loop does after drawing a frame.
#[derive(Clone, Copy, Debug, PartialEq, Eq, Structural)]
pub enum FrameAction {
    SwitchWorld,
    PrintFps,
    Nothing,
}

/// The action for the keys that went down this frame: the switch key moves
/// to the next world when there is more than one; otherwise the frame-rate
/// key reports the frame rate.
pub fn frame_action(switch_down: bool, fps_down: bool, world_count: usize) -> (a: FrameAction)
    ensures
        a == (if switch_down && world_count > 1 {
            FrameAction::SwitchWorld
        } else if fps_down {
            FrameAction::PrintFps
        } else {
            FrameAction::Nothing
        }),
{
    if switch_down && world_count > 1 {
        FrameAction::SwitchWorld
    } else if fps_down {
        FrameAction::PrintFps
    } else {
        FrameAction::Nothing
    }
}

/// The world after `world_index`, wrapping round to the first.
pub fn next_world(world_index: usize, world_count: usize) -> (next: usize)
    requires
        world_index < world_count,
    ensures
        next == (if world_index == world_count - 1 { 0 } else { world_index + 1 }),
        next < world_count,
{
    if world_index == world_count - 1 {
        0
    } else {
        world_index + 1
    }
}

} // verus!
