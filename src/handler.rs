use vstd::prelude::*;

use crate::app::{input_updated, zoom_step, App};
use crate::states::{AppState, Direction, ScrollDirection, Views};

verus! {

/// A key, as far as the viewer tells keys apart.
#[derive(Debug, Clone, Copy, PartialEq, Eq, Structural)]
pub enum KeyCode {
    Char(char),
    F(u8),
    Enter,
    Backspace,
    Esc,
    Up,
    Down,
    Other,
}

/// The modifier keys held with a key.
#[derive(Debug, Clone, Copy, PartialEq, Eq, Structural)]
pub enum KeyModifiers {
    /// no modifier
    NONE,
    /// Control alone
    CONTROL,
    /// Alt alone
    ALT,
    /// any other combination
    OTHER,
}

/// Whether the key went down, repeated or came up.
#[derive(Debug, Clone, Copy, PartialEq, Eq, Structural)]
pub enum KeyEventKind {
    Press,
    Repeat,
    Release,
}

/// A key event.
#[derive(Debug, Clone, Copy, PartialEq, Eq, Structural)]
pub struct KeyEvent {
    pub code: KeyCode,
    pub modifiers: KeyModifiers,
    pub kind: KeyEventKind,
}

impl KeyEvent {
    /// A key pressed with `modifiers`.
    pub fn new(code: KeyCode, modifiers: KeyModifiers) -> (r: Self)
        ensures
            r == (KeyEvent { code, modifiers, kind: KeyEventKind::Press }),
    {
        KeyEvent { code, modifiers, kind: KeyEventKind::Press }
    }
}

/// What a key asks of the viewer.
#[derive(Debug, Clone, Copy, PartialEq, Eq, Structural)]
pub enum Action {
    Stop,
    FlipRaw,
    FlipSingle,
    FlipShowInput,
    FlipHelp,
    FlipWrap,
    FlipPause,
    FlipDirection,
    Zoom(u8),
    Remove(u8),
    Hide(u8),
    /// pause, and scroll one line up when `true`
    Up(bool),
    /// pause, and scroll one line down when `true`
    Down(bool),
    /// resume autoscroll, and stop when `true`
    Resume(bool),
    /// a key for the input box
    Input(KeyCode),
    Nothing,
}

/// The digit `c` stands for, when it is one of `1` to `9`.
pub open spec fn digit_id(c: char) -> Option<u8> {
    if '1' <= c && c <= '9' {
        Some((c as u32 - '0' as u32) as u8)
    } else {
        None
    }
}

/// The action a key asks for; while the input box is shown every key goes
/// to it.
pub open spec fn action_of(key: KeyEvent, input_shown: bool) -> Action {
    if input_shown {
        Action::Input(key.code)
    } else {
        match key.code {
            KeyCode::Esc => Action::Stop,
            KeyCode::Char(c) => if c == 'd' || c == 'D' {
                if key.modifiers == KeyModifiers::CONTROL {
                    Action::Stop
                } else {
                    Action::Nothing
                }
            } else if c == '*' {
                Action::FlipRaw
            } else if c == 's' {
                Action::FlipSingle
            } else if c == 'i' || c == '/' {
                Action::FlipShowInput
            } else if c == 'h' {
                Action::FlipHelp
            } else if c == 'w' {
                Action::FlipWrap
            } else if c == 'p' || c == ' ' {
                Action::FlipPause
            } else if c == 'v' {
                Action::FlipDirection
            } else if c == 'c' {
                Action::Resume(key.modifiers == KeyModifiers::CONTROL)
            } else if digit_id(c) is Some {
                if key.modifiers == KeyModifiers::ALT {
                    Action::Remove(digit_id(c)->0)
                } else if key.modifiers == KeyModifiers::NONE {
                    Action::Zoom(digit_id(c)->0)
                } else {
                    Action::Nothing
                }
            } else {
                Action::Nothing
            },
            KeyCode::F(n) => if 1 <= n && n <= 9 {
                Action::Hide(n)
            } else {
                Action::Nothing
            },
            KeyCode::Up => Action::Up(key.kind == KeyEventKind::Press),
            KeyCode::Down => Action::Down(key.kind == KeyEventKind::Press),
            _ => Action::Nothing,
        }
    }
}

/// The action key `key_event` asks for.
pub fn key_action(key_event: KeyEvent, input_shown: bool) -> (r: Action)
    ensures
        r == action_of(key_event, input_shown),
{
    if input_shown {
        return Action::Input(key_event.code);
    }
    match key_event.code {
        KeyCode::Esc => Action::Stop,
        KeyCode::Char(c) => {
            if c == 'd' || c == 'D' {
                if key_event.modifiers == KeyModifiers::CONTROL {
                    Action::Stop
                } else {
                    Action::Nothing
                }
            } else if c == '*' {
                Action::FlipRaw
            } else if c == 's' {
                Action::FlipSingle
            } else if c == 'i' || c == '/' {
                Action::FlipShowInput
            } else if c == 'h' {
                Action::FlipHelp
            } else if c == 'w' {
                Action::FlipWrap
            } else if c == 'p' || c == ' ' {
                Action::FlipPause
            } else if c == 'v' {
                Action::FlipDirection
            } else if c == 'c' {
                Action::Resume(key_event.modifiers == KeyModifiers::CONTROL)
            } else if '1' <= c && c <= '9' {
                let id = (c as u32 - '0' as u32) as u8;
                if key_event.modifiers == KeyModifiers::ALT {
                    Action::Remove(id)
                } else if key_event.modifiers == KeyModifiers::NONE {
                    Action::Zoom(id)
                } else {
                    Action::Nothing
                }
            } else {
                Action::Nothing
            }
        },
        KeyCode::F(n) => {
            if 1 <= n && n <= 9 {
                Action::Hide(n)
            } else {
                Action::Nothing
            }
        },
        KeyCode::Up => Action::Up(key_event.kind == KeyEventKind::Press),
        KeyCode::Down => Action::Down(key_event.kind == KeyEventKind::Press),
        _ => Action::Nothing,
    }
}

/// `n` is `o` with its state replaced by `st`.
pub open spec fn with_state(o: App, n: App, st: AppState) -> bool {
    n == (App { state: st, ..o })
}

/// `n` is `o` after action `a`, each action doing what the method of the
/// same name does.
pub open spec fn performed(o: App, n: App, a: Action) -> bool {
    let st = o.state;
    match a {
        Action::Stop => with_state(o, n, AppState { running: false, ..st }),
        Action::FlipRaw => with_state(
            o,
            n,
            AppState {
                show: if o.containers@.len() == 0 {
                    st.show
                } else if st.show == Views::RawBuffer {
                    Views::Containers
                } else {
                    Views::RawBuffer
                },
                ..st
            },
        ),
        Action::FlipSingle => with_state(
            o,
            n,
            AppState {
                show: if o.containers@.len() == 0 {
                    st.show
                } else if st.show == Views::SingleBuffer {
                    Views::Containers
                } else {
                    Views::SingleBuffer
                },
                ..st
            },
        ),
        Action::FlipShowInput => with_state(o, n, AppState { show_input: !st.show_input, ..st }),
        Action::FlipHelp => with_state(o, n, AppState { help: !st.help, ..st }),
        Action::FlipWrap => with_state(o, n, AppState { wrap: !st.wrap, ..st }),
        Action::FlipPause => with_state(o, n, AppState { paused: !st.paused, ..st }),
        Action::FlipDirection => with_state(
            o,
            n,
            AppState {
                direction: if st.direction == Direction::Vertical {
                    Direction::Horizontal
                } else {
                    Direction::Vertical
                },
                ..st
            },
        ),
        Action::Zoom(id) => {
            let (show, zoom_id) = zoom_step(st.show, st.zoom_id, o.has_id(id), id);
            with_state(o, n, AppState { show, zoom_id, ..st })
        },
        Action::Remove(id) => if o.has_id(id) {
            with_state(o, n, AppState { show: Views::Remove, zoom_id: Some(id), ..st })
        } else {
            n == o
        },
        Action::Hide(id) => {
            &&& n.state == o.state
            &&& n.raw_buffer == o.raw_buffer
            &&& n.single_buffer == o.single_buffer
            &&& n.input == o.input
            &&& n.args == o.args
            &&& n.containers@.len() == o.containers@.len()
            &&& forall|i: int|
                0 <= i < o.containers@.len() ==> {
                    let c = o.containers@[i];
                    #[trigger] n.containers@[i] == (crate::container::Container {
                        state: crate::states::ContainerState {
                            hide: if c.id == id {
                                !c.state.hide
                            } else {
                                c.state.hide
                            },
                            ..c.state
                        },
                        ..c
                    })
                }
        },
        Action::Up(press) => with_state(
            o,
            n,
            AppState {
                paused: true,
                scroll_direction: if press {
                    ScrollDirection::UP
                } else {
                    st.scroll_direction
                },
                ..st
            },
        ),
        Action::Down(press) => with_state(
            o,
            n,
            AppState {
                paused: true,
                scroll_direction: if press {
                    ScrollDirection::DOWN
                } else {
                    st.scroll_direction
                },
                ..st
            },
        ),
        Action::Resume(stop) => with_state(
            o,
            n,
            AppState {
                paused: false,
                running: if stop {
                    false
                } else {
                    st.running
                },
                ..st
            },
        ),
        Action::Input(code) => input_updated(o, n, code),
        Action::Nothing => n == o,
    }
}

impl App {
    /// Carries out action `a`.
    pub fn perform(&mut self, a: Action)
        requires
            old(self).wf(),
        ensures
            final(self).wf(),
            performed(*old(self), *final(self), a),
    {
        match a {
            Action::Stop => self.stop(),
            Action::FlipRaw => self.flip_raw_view(),
            Action::FlipSingle => self.flip_single_view(),
            Action::FlipShowInput => self.flip_show_input(),
            Action::FlipHelp => self.flip_help(),
            Action::FlipWrap => self.flip_wrap(),
            Action::FlipPause => self.flip_pause(),
            Action::FlipDirection => self.flip_direction(),
            Action::Zoom(id) => self.zoom_into(id),
            Action::Remove(id) => self.remove_view(id),
            Action::Hide(id) => self.hide_view(id),
            Action::Up(press) => {
                self.pause();
                if press {
                    self.scroll_up();
                }
            },
            Action::Down(press) => {
                self.pause();
                if press {
                    self.scroll_down();
                }
            },
            Action::Resume(stop) => {
                self.unpause();
                if stop {
                    self.stop();
                }
            },
            Action::Input(code) => self.update_input(code),
            Action::Nothing => {},
        }
    }
}

/// Handles the key events and updates the state of [`App`].
pub fn handle_key_events(key_event: KeyEvent, app: &mut App)
    requires
        old(app).wf(),
    ensures
        final(app).wf(),
        performed(*old(app), *final(app), action_of(key_event, old(app).state.show_input)),
{
    let action = key_action(key_event, app.show_input());
    app.perform(action);
}

} // verus!
