use smoke::input::{InputHandler, KeyData, MouseEventKind, PressState};

#[test]
fn key_data_none_is_idle() {
    assert!(KeyData::none().state == PressState::Idle);
}

#[test]
fn unseen_key_is_idle() {
    let h = InputHandler::new();
    assert!(h.get_key(42).state == PressState::Idle);
    assert!(!h.is_key_active(42));
    assert!(!h.is_key_down(42));
}

#[test]
fn press_cycle_down_held_up_idle() {
    let mut h = InputHandler::new();
    assert!(!h.process_key_input(5, true, false));
    assert!(h.get_key(5).state == PressState::Down);
    assert!(h.is_key_down(5));
    assert!(h.is_key_active(5));

    h.main_loop();
    assert!(h.get_key(5).state == PressState::Held);
    assert!(!h.is_key_down(5));
    assert!(h.is_key_active(5));

    // a repeated press while held does not report a new press
    assert!(!h.process_key_input(5, true, false));
    assert!(h.get_key(5).state == PressState::Held);

    assert!(!h.process_key_input(5, false, false));
    assert!(h.get_key(5).state == PressState::Up);
    assert!(!h.is_key_active(5));

    h.main_loop();
    assert!(h.get_key(5).state == PressState::Idle);
    h.main_loop();
    assert!(h.get_key(5).state == PressState::Idle);
}

#[test]
fn frame_update_touches_every_key() {
    let mut h = InputHandler::new();
    h.process_key_input(1, true, false);
    h.process_key_input(2, true, false);
    h.process_key_input(2, false, false);
    h.process_key_input(3, false, false);
    h.update_key_state();
    assert!(h.get_key(1).state == PressState::Held);
    assert!(h.get_key(2).state == PressState::Idle);
    assert!(h.get_key(3).state == PressState::Idle);
}

#[test]
fn escape_press_asks_to_quit() {
    let mut h = InputHandler::new();
    assert!(h.process_key_input(9, true, true));
    assert!(h.is_key_down(9));
    assert!(!h.process_key_input(9, false, true));
}

#[test]
fn subscriptions_get_fresh_ids_and_cancel_alone() {
    let mut h = InputHandler::new();
    let down = h.on_mouse_down();
    let up = h.on_mouse_up();
    let mv = h.on_mouse_move();
    let down2 = h.on_mouse_down();
    assert_eq!(down.id.raw(), 0);
    assert_eq!(up.id.raw(), 1);
    assert_eq!(mv.id.raw(), 2);
    assert_eq!(down2.id.raw(), 3);
    assert!(down.kind == MouseEventKind::Down);
    assert!(up.kind == MouseEventKind::Up);
    assert!(mv.kind == MouseEventKind::Move);
    assert!(h.is_subscribed(down) && h.is_subscribed(up) && h.is_subscribed(mv));

    h.unsubscribe_mouse(down);
    assert!(!h.is_subscribed(down));
    assert!(h.is_subscribed(down2));
    assert!(h.is_subscribed(up));
    assert!(h.is_subscribed(mv));

    // ids are never handed out twice, even after a cancellation
    let again = h.on_mouse_down();
    assert_eq!(again.id.raw(), 4);
}
