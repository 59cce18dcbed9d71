//! Keyboard and mouse control of the viewer: which keys move the camera, and
//! how window and device events drive the viewer.
use vstd::prelude::*;

verus! {

/// The keys the viewer reacts to; every other key is `Other`.
#[derive(Debug, Clone, Copy, PartialEq, Eq, Structural)]
pub enum Key {
    KeyW,
    KeyA,
    KeyS,
    KeyD,
    ArrowUp,
    ArrowDown,
    ArrowLeft,
    ArrowRight,
    Other,
}

/// A direction the camera moves in.
#[derive(Debug, Clone, Copy, PartialEq, Eq, Structural)]
pub enum Direction {
    Forward,
    Backward,
    Left,
    Right,
}

/// The direction a key moves the camera in: W and up forward, S and down
/// backward, A and left to the left, D and right to the right.
pub open spec fn direction_of(key: Key) -> Option<Direction> {
    match key {
        Key::KeyW | Key::ArrowUp => Some(Direction::Forward),
        Key::KeyS | Key::ArrowDown => Some(Direction::Backward),
        Key::KeyA | Key::ArrowLeft => Some(Direction::Left),
        Key::KeyD | Key::ArrowRight => Some(Direction::Right),
        Key::Other => None,
    }
}

/// Which movement directions are held down.
#[derive(Debug, Clone, Copy, PartialEq, Eq, Structural)]
pub struct MovementState {
    pub move_forward: bool,
    pub move_backward: bool,
    pub move_left: bool,
    pub move_right: bool,
}

impl MovementState {
    /// Whether direction `d` is held down.
    pub open spec fn held(self, d: Direction) -> bool {
        match d {
            Direction::Forward => self.move_forward,
            Direction::Backward => self.move_backward,
            Direction::Left => self.move_left,
            Direction::Right => self.move_right,
        }
    }

    /// The state after `key` went down (`is_pressed`) or up.
    pub open spec fn after_key(self, key: Key, is_pressed: bool) -> MovementState {
        match direction_of(key) {
            Some(Direction::Forward) => MovementState { move_forward: is_pressed, ..self },
            Some(Direction::Backward) => MovementState { move_backward: is_pressed, ..self },
            Some(Direction::Left) => MovementState { move_left: is_pressed, ..self },
            Some(Direction::Right) => MovementState { move_right: is_pressed, ..self },
            None => self,
        }
    }

    /// No direction held.
    pub fn new() -> (s: Self)
        ensures
            forall|d: Direction| !s.held(d),
    {
        MovementState {
            move_forward: false,
            move_backward: false,
            move_left: false,
            move_right: false,
        }
    }

    /// Records that `key` went down (`is_pressed`) or up.
    pub fn handle_keyboard(&mut self, key: Key, is_pressed: bool)
        ensures
            *final(self) == old(self).after_key(key, is_pressed),
            final(self).move_forward == if key == Key::KeyW || key == Key::ArrowUp {
                is_pressed
            } else {
                old(self).move_forward
            },
            final(self).move_backward == if key == Key::KeyS || key == Key::ArrowDown {
                is_pressed
            } else {
                old(self).move_backward
            },
            final(self).move_left == if key == Key::KeyA || key == Key::ArrowLeft {
                is_pressed
            } else {
                old(self).move_left
            },
            final(self).move_right == if key == Key::KeyD || key == Key::ArrowRight {
                is_pressed
            } else {
                old(self).move_right
            },
    {
        match key {
            Key::KeyW | Key::ArrowUp => self.move_forward = is_pressed,
            Key::KeyS | Key::ArrowDown => self.move_backward = is_pressed,
            Key::KeyA | Key::ArrowLeft => self.move_left = is_pressed,
            Key::KeyD | Key::ArrowRight => self.move_right = is_pressed,
            Key::Other => {},
        }
    }
}

/// A key event sets the direction of its key to whether the key is down, and
/// leaves every other direction as it was.
pub proof fn lemma_key_sets_only_its_direction(s: MovementState, key: Key, is_pressed: bool, d: Direction)
    ensures
        s.after_key(key, is_pressed).held(d) == if direction_of(key) == Some(d) {
            is_pressed
        } else {
            s.held(d)
        },
{
}

/// The keys and their directions: W and the up arrow move forward, S and the
/// down arrow backward, A and the left arrow to the left, D and the right arrow
/// to the right; each sets only its own direction, and any other key changes
/// nothing.
pub proof fn lemma_key_table(s: MovementState, is_pressed: bool)
    ensures
        s.after_key(Key::KeyW, is_pressed) == (MovementState { move_forward: is_pressed, ..s }),
        s.after_key(Key::ArrowUp, is_pressed) == (MovementState { move_forward: is_pressed, ..s }),
        s.after_key(Key::KeyS, is_pressed) == (MovementState { move_backward: is_pressed, ..s }),
        s.after_key(Key::ArrowDown, is_pressed) == (MovementState {
            move_backward: is_pressed,
            ..s
        }),
        s.after_key(Key::KeyA, is_pressed) == (MovementState { move_left: is_pressed, ..s }),
        s.after_key(Key::ArrowLeft, is_pressed) == (MovementState { move_left: is_pressed, ..s }),
        s.after_key(Key::KeyD, is_pressed) == (MovementState { move_right: is_pressed, ..s }),
        s.after_key(Key::ArrowRight, is_pressed) == (MovementState {
            move_right: is_pressed,
            ..s
        }),
        s.after_key(Key::Other, is_pressed) == s,
{
}

/// Pressing and then releasing a key leaves the state as it was before, when
/// its direction was not held then.
pub proof fn lemma_press_release_restores(s: MovementState, key: Key)
    requires
        direction_of(key) matches Some(d) ==> !s.held(d),
    ensures
        s.after_key(key, true).after_key(key, false) == s,
{
}

/// The two keys of a direction do the same.
pub proof fn lemma_keys_of_a_direction_agree(s: MovementState, k1: Key, k2: Key, is_pressed: bool)
    requires
        direction_of(k1) == direction_of(k2),
    ensures
        s.after_key(k1, is_pressed) == s.after_key(k2, is_pressed),
{
}

/// A mouse button, as far as the viewer cares.
#[derive(Debug, Clone, Copy, PartialEq, Eq, Structural)]
pub enum MouseButton {
    Left,
    Other,
}

/// A window event, as far as the viewer cares.
#[derive(Debug, Clone, Copy, PartialEq, Eq, Structural)]
pub enum WindowInput {
    CloseRequested,
    Resized { width: u32, height: u32 },
    RedrawRequested,
    Keyboard { key: Key, is_pressed: bool },
    MouseInput { button: MouseButton, is_pressed: bool },
    Other,
}

/// What the viewer does in answer to a window event.
#[derive(Debug, Clone, Copy, PartialEq, Eq, Structural)]
pub enum WindowAction {
    /// Nothing to do.
    Ignore,
    /// Leave the event loop.
    Exit,
    /// Resize the renderer's surface.
    Resize { width: u32, height: u32 },
    /// Move the camera by the controller, render a frame, and ask for the next one.
    Redraw,
}

/// A device event, as far as the viewer cares.
#[derive(Debug, Clone, Copy, PartialEq, Eq, Structural)]
pub enum DeviceInput {
    MouseMotion,
    Other,
}

/// What the viewer does in answer to a device event.
#[derive(Debug, Clone, Copy, PartialEq, Eq, Structural)]
pub enum DeviceAction {
    /// Nothing to do.
    Ignore,
    /// Show the grabbing cursor and turn the camera by the mouse's motion.
    Drag,
    /// Show the grab cursor.
    Hover,
}

/// The viewer's state between events: whether its window and renderer exist,
/// whether the left mouse button is held, and which movement keys are held.
#[derive(Debug, Clone, Copy, PartialEq, Eq, Structural)]
pub struct ViewerState {
    pub ready: bool,
    pub is_dragging: bool,
    pub movement: MovementState,
}

/// The state and action that follow the window event `input` in state `s`.
pub open spec fn window_step(s: ViewerState, input: WindowInput) -> (ViewerState, WindowAction) {
    if !s.ready {
        (s, WindowAction::Ignore)
    } else {
        match input {
            WindowInput::CloseRequested => (s, WindowAction::Exit),
            WindowInput::Resized { width, height } => (s, WindowAction::Resize { width, height }),
            WindowInput::RedrawRequested => (s, WindowAction::Redraw),
            WindowInput::Keyboard { key, is_pressed } => (
                ViewerState { movement: s.movement.after_key(key, is_pressed), ..s },
                WindowAction::Ignore,
            ),
            WindowInput::MouseInput { button: MouseButton::Left, is_pressed } => (
                ViewerState { is_dragging: is_pressed, ..s },
                WindowAction::Ignore,
            ),
            _ => (s, WindowAction::Ignore),
        }
    }
}

/// The action that follows the device event `input` in state `s`.
pub open spec fn device_step(s: ViewerState, input: DeviceInput) -> DeviceAction {
    if !s.ready {
        DeviceAction::Ignore
    } else {
        match input {
            DeviceInput::MouseMotion => if s.is_dragging {
                DeviceAction::Drag
            } else {
                DeviceAction::Hover
            },
            DeviceInput::Other => DeviceAction::Ignore,
        }
    }
}

impl ViewerState {
    /// The state before the window exists: nothing ready, nothing held.
    pub fn new() -> (s: Self)
        ensures
            !s.ready,
            !s.is_dragging,
            forall|d: Direction| !s.movement.held(d),
    {
        ViewerState { ready: false, is_dragging: false, movement: MovementState::new() }
    }

    /// The window and renderer now exist; the controller starts afresh.
    pub fn resumed(&mut self)
        ensures
            final(self).ready,
            final(self).is_dragging == old(self).is_dragging,
            forall|d: Direction| !final(self).movement.held(d),
    {
        self.ready = true;
        self.movement = MovementState::new();
    }

    /// Takes in a window event and says what to do about it.
    pub fn window_event(&mut self, input: WindowInput) -> (action: WindowAction)
        ensures
            (*final(self), action) == window_step(*old(self), input),
            final(self).ready == old(self).ready,
            input matches WindowInput::Keyboard { key, is_pressed } ==> {
                &&& action == WindowAction::Ignore
                &&& final(self).is_dragging == old(self).is_dragging
                &&& old(self).ready ==> final(self).movement == old(self).movement.after_key(
                    key,
                    is_pressed,
                )
                &&& !old(self).ready ==> final(self).movement == old(self).movement
            },
    {
        if !self.ready {
            return WindowAction::Ignore;
        }
        match input {
            WindowInput::CloseRequested => WindowAction::Exit,
            WindowInput::Resized { width, height } => WindowAction::Resize { width, height },
            WindowInput::RedrawRequested => WindowAction::Redraw,
            WindowInput::Keyboard { key, is_pressed } => {
                self.movement.handle_keyboard(key, is_pressed);
                WindowAction::Ignore
            },
            WindowInput::MouseInput { button, is_pressed } => {
                match button {
                    MouseButton::Left => {
                        self.is_dragging = is_pressed;
                    },
                    MouseButton::Other => {},
                }
                WindowAction::Ignore
            },
            WindowInput::Other => WindowAction::Ignore,
        }
    }

    /// Says what to do about a device event.
    pub fn device_event(&self, input: DeviceInput) -> (action: DeviceAction)
        ensures
            action == device_step(*self, input),
            input == DeviceInput::Other ==> action == DeviceAction::Ignore,
            action == DeviceAction::Drag <==> (self.ready && self.is_dragging && input
                == DeviceInput::MouseMotion),
            action == DeviceAction::Hover <==> (self.ready && !self.is_dragging && input
                == DeviceInput::MouseMotion),
    {
        if !self.ready {
            return DeviceAction::Ignore;
        }
        match input {
            DeviceInput::MouseMotion => if self.is_dragging {
                DeviceAction::Drag
            } else {
                DeviceAction::Hover
            },
            DeviceInput::Other => DeviceAction::Ignore,
        }
    }
}

/// Before the window exists every event is ignored and changes nothing.
pub proof fn lemma_events_before_ready_ignored(s: ViewerState, w: WindowInput, d: DeviceInput)
    requires
        !s.ready,
    ensures
        window_step(s, w) == (s, WindowAction::Ignore),
        device_step(s, d) == DeviceAction::Ignore,
{
}

/// Once ready, a key event held or released reaches the movement state: after
/// a press the key's direction is held and after a release it is not, the
/// other directions, the drag and readiness stay, and nothing else is done.
pub proof fn lemma_key_events_reach_movement(s: ViewerState, key: Key, is_pressed: bool)
    requires
        s.ready,
    ensures
        ({
            let (t, a) = window_step(s, WindowInput::Keyboard { key, is_pressed });
            &&& a == WindowAction::Ignore
            &&& t.ready && t.is_dragging == s.is_dragging
            &&& t.movement.move_forward == if key == Key::KeyW || key == Key::ArrowUp {
                is_pressed
            } else {
                s.movement.move_forward
            }
            &&& t.movement.move_backward == if key == Key::KeyS || key == Key::ArrowDown {
                is_pressed
            } else {
                s.movement.move_backward
            }
            &&& t.movement.move_left == if key == Key::KeyA || key == Key::ArrowLeft {
                is_pressed
            } else {
                s.movement.move_left
            }
            &&& t.movement.move_right == if key == Key::KeyD || key == Key::ArrowRight {
                is_pressed
            } else {
                s.movement.move_right
            }
        }),
{
}

/// Once ready, pressing and then releasing a movement key leaves its direction
/// not held.
pub proof fn lemma_press_then_release_stops(s: ViewerState, key: Key)
    requires
        s.ready,
    ensures
        ({
            let t = window_step(
                window_step(s, WindowInput::Keyboard { key, is_pressed: true }).0,
                WindowInput::Keyboard { key, is_pressed: false },
            ).0;
            &&& (key == Key::KeyW || key == Key::ArrowUp) ==> !t.movement.move_forward
            &&& (key == Key::KeyS || key == Key::ArrowDown) ==> !t.movement.move_backward
            &&& (key == Key::KeyA || key == Key::ArrowLeft) ==> !t.movement.move_left
            &&& (key == Key::KeyD || key == Key::ArrowRight) ==> !t.movement.move_right
        }),
{
}

/// Only mouse motion does anything among device events, and only once ready:
/// it drags exactly when the left button is held and hovers otherwise.
pub proof fn lemma_device_events(s: ViewerState, input: DeviceInput)
    ensures
        device_step(s, DeviceInput::Other) == DeviceAction::Ignore,
        device_step(s, input) == DeviceAction::Drag <==> (s.ready && s.is_dragging && input
            == DeviceInput::MouseMotion),
        device_step(s, input) == DeviceAction::Hover <==> (s.ready && !s.is_dragging && input
            == DeviceInput::MouseMotion),
{
}

/// Once ready, a mouse motion drags exactly when the last left-button event
/// was a press: after a left-button event with `is_pressed`, motion drags iff
/// `is_pressed`.
pub proof fn lemma_drag_follows_left_button(s: ViewerState, is_pressed: bool)
    requires
        s.ready,
    ensures
        device_step(
            window_step(s, WindowInput::MouseInput { button: MouseButton::Left, is_pressed }).0,
            DeviceInput::MouseMotion,
        ) == if is_pressed {
            DeviceAction::Drag
        } else {
            DeviceAction::Hover
        },
{
}

} // verus!
