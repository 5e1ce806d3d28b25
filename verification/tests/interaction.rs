use stellar_notes::interaction::{Button, CameraMode, Drag, MoveTarget, Secant};

#[test]
fn drag_follows_left_button() {
    let mut d = Drag::new();
    assert!(!d.follows_pointer());
    d.press(Button::Other);
    assert!(!d.follows_pointer());
    d.press(Button::Left);
    assert!(d.follows_pointer());
    d.release(Button::Other);
    assert!(d.follows_pointer());
    d.release(Button::Left);
    assert!(!d.follows_pointer());
}

#[test]
fn secant_points() {
    let mut s = Secant::new();
    assert!(s.animates());
    s.press(Button::Left, false, false);
    assert!(s.animates());
    assert_eq!(s.move_target(), MoveTarget::Nothing);
    s.press(Button::Left, false, true);
    assert!(!s.animates());
    assert_eq!(s.move_target(), MoveTarget::PointB);
    s.press(Button::Left, true, false);
    assert_eq!(s.move_target(), MoveTarget::PointA);
    s.release(Button::Left);
    assert_eq!(s.move_target(), MoveTarget::Nothing);
    assert!(!s.animates());
}

#[test]
fn camera_toggle() {
    let mut c = CameraMode::new();
    assert!(c.moves_camera());
    assert!(!c.cursor_visible());
    assert!(!c.grab_request());
    c.grab_answered(true);
    assert!(!c.moves_camera());
    assert!(c.cursor_visible());
    assert!(c.grab_request());
    c.grab_answered(false);
    assert!(!c.moves_camera());
}
