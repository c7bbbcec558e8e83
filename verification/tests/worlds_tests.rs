use smoke::worlds::{frame_action, next_world, FrameAction};

#[test]
fn switching_needs_more_than_one_world() {
    assert_eq!(frame_action(true, false, 3), FrameAction::SwitchWorld);
    assert_eq!(frame_action(true, true, 3), FrameAction::SwitchWorld);
    assert_eq!(frame_action(true, false, 1), FrameAction::Nothing);
    assert_eq!(frame_action(true, true, 1), FrameAction::PrintFps);
    assert_eq!(frame_action(false, true, 2), FrameAction::PrintFps);
    assert_eq!(frame_action(false, false, 2), FrameAction::Nothing);
}

#[test]
fn worlds_wrap_round() {
    assert_eq!(next_world(0, 3), 1);
    assert_eq!(next_world(1, 3), 2);
    assert_eq!(next_world(2, 3), 0);
    assert_eq!(next_world(0, 1), 0);
}
