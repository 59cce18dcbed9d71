use viewer::controls::{
    DeviceAction, DeviceInput, Key, MouseButton, MovementState, ViewerState, WindowAction,
    WindowInput,
};
use viewer::surface::{plan_frame, FramePlan, SurfaceExtent, SurfaceStatus};

#[test]
fn keys_move_their_direction() {
    let mut m = MovementState::new();
    m.handle_keyboard(Key::KeyW, true);
    m.handle_keyboard(Key::ArrowLeft, true);
    assert!(m.move_forward && m.move_left && !m.move_backward && !m.move_right);
    m.handle_keyboard(Key::ArrowUp, false);
    assert!(!m.move_forward && m.move_left);
    m.handle_keyboard(Key::Other, true);
    assert!(!m.move_forward && m.move_left && !m.move_backward && !m.move_right);
    m.handle_keyboard(Key::KeyS, true);
    m.handle_keyboard(Key::ArrowRight, true);
    assert!(m.move_backward && m.move_right);
    m.handle_keyboard(Key::KeyD, false);
    m.handle_keyboard(Key::KeyA, false);
    assert!(m.move_backward && !m.move_right && !m.move_left);
}

#[test]
fn press_then_release_restores() {
    let before = MovementState::new();
    let mut m = before;
    m.handle_keyboard(Key::KeyD, true);
    m.handle_keyboard(Key::KeyD, false);
    assert_eq!(m, before);
}

#[test]
fn events_before_ready_are_ignored() {
    let mut s = ViewerState::new();
    let before = s;
    assert_eq!(s.window_event(WindowInput::CloseRequested), WindowAction::Ignore);
    assert_eq!(s.window_event(WindowInput::Keyboard { key: Key::KeyW, is_pressed: true }), WindowAction::Ignore);
    assert_eq!(s, before);
    assert_eq!(s.device_event(DeviceInput::MouseMotion), DeviceAction::Ignore);
}

#[test]
fn window_events_once_ready() {
    let mut s = ViewerState::new();
    s.resumed();
    assert!(s.ready);
    assert_eq!(s.window_event(WindowInput::CloseRequested), WindowAction::Exit);
    assert_eq!(
        s.window_event(WindowInput::Resized { width: 640, height: 480 }),
        WindowAction::Resize { width: 640, height: 480 }
    );
    assert_eq!(s.window_event(WindowInput::RedrawRequested), WindowAction::Redraw);
    assert_eq!(s.window_event(WindowInput::Other), WindowAction::Ignore);
    assert_eq!(s.window_event(WindowInput::Keyboard { key: Key::KeyS, is_pressed: true }), WindowAction::Ignore);
    assert!(s.movement.move_backward);
}

#[test]
fn dragging_follows_left_button() {
    let mut s = ViewerState::new();
    s.resumed();
    assert_eq!(s.device_event(DeviceInput::MouseMotion), DeviceAction::Hover);
    s.window_event(WindowInput::MouseInput { button: MouseButton::Left, is_pressed: true });
    assert_eq!(s.device_event(DeviceInput::MouseMotion), DeviceAction::Drag);
    s.window_event(WindowInput::MouseInput { button: MouseButton::Other, is_pressed: false });
    assert_eq!(s.device_event(DeviceInput::MouseMotion), DeviceAction::Drag);
    assert_eq!(s.device_event(DeviceInput::Other), DeviceAction::Ignore);
    s.window_event(WindowInput::MouseInput { button: MouseButton::Left, is_pressed: false });
    assert_eq!(s.device_event(DeviceInput::MouseMotion), DeviceAction::Hover);
}

#[test]
fn resumed_resets_movement_keeps_drag() {
    let mut s = ViewerState::new();
    s.resumed();
    s.window_event(WindowInput::Keyboard { key: Key::KeyW, is_pressed: true });
    s.window_event(WindowInput::MouseInput { button: MouseButton::Left, is_pressed: true });
    s.resumed();
    assert_eq!(s.movement, MovementState::new());
    assert!(s.is_dragging);
}

#[test]
fn resize_ignores_zero_sizes() {
    let mut e = SurfaceExtent { width: 800, height: 600 };
    assert!(!e.resize(0, 300));
    assert!(!e.resize(300, 0));
    assert_eq!(e, SurfaceExtent { width: 800, height: 600 });
    assert!(e.resize(1024, 768));
    assert_eq!(e, SurfaceExtent { width: 1024, height: 768 });
}

#[test]
fn frame_plans() {
    assert_eq!(plan_frame(SurfaceStatus::Success), FramePlan { reconfigure: false, draw: true });
    assert_eq!(plan_frame(SurfaceStatus::Suboptimal), FramePlan { reconfigure: true, draw: true });
    assert_eq!(plan_frame(SurfaceStatus::Outdated), FramePlan { reconfigure: true, draw: false });
    assert_eq!(plan_frame(SurfaceStatus::Lost), FramePlan { reconfigure: true, draw: false });
    for s in [SurfaceStatus::Timeout, SurfaceStatus::Occluded, SurfaceStatus::Validation] {
        assert_eq!(plan_frame(s), FramePlan { reconfigure: false, draw: false });
    }
}
