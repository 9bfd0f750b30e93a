//! Keyboard and update events delivered to widgets.
use vstd::prelude::*;

verus! {

/// Whether a key went down or up.
#[derive(Clone, Copy, PartialEq, Eq, Structural, Debug)]
pub enum KeyState {
    Down,
    Up,
}

/// The key of a keyboard event.
pub enum Key {
    /// A key that produces text, with that text.
    Character(String),
    /// Any other key.
    Named,
}

/// The modifier keys held during a keyboard event.
#[derive(Clone, Copy, PartialEq, Eq, Structural, Debug)]
pub struct Modifiers {
    pub ctrl: bool,
    pub meta: bool,
}

pub struct KeyboardEvent {
    pub state: KeyState,
    pub key: Key,
    pub modifiers: Modifiers,
}

/// A text-related event.
pub enum TextEvent {
    Keyboard(KeyboardEvent),
    /// Any other text event (IME, focus changes, ...).
    Other,
}

/// A pointer button.
#[derive(Clone, Copy, PartialEq, Eq, Structural, Debug)]
pub enum PointerButton {
    Primary,
    Secondary,
    Auxiliary,
}

/// A pointer event; positions are left to the text layout, which turns them into
/// selections.
#[derive(Clone, Copy, PartialEq, Eq, Structural, Debug)]
pub enum PointerEvent {
    /// A button went down (`None` for a touch or pen contact), `count` being the
    /// number of clicks in quick succession.
    Down { button: Option<PointerButton>, count: u8 },
    /// The pointer moved.
    Move,
    /// Any other pointer event.
    Other,
}

/// A change in the environment a widget is told about.
#[derive(Clone, Copy, PartialEq, Eq, Structural, Debug)]
pub enum Update {
    /// The set of available fonts changed.
    FontsChanged,
    /// Any other update.
    Other,
}

/// What handling an update asked of the framework.
pub struct UpdateCtx {
    pub layout_requested: bool,
}

impl UpdateCtx {
    pub fn new() -> (r: Self)
        ensures
            !r.layout_requested,
    {
        UpdateCtx { layout_requested: false }
    }

    pub fn request_layout(&mut self)
        ensures
            final(self).layout_requested,
    {
        self.layout_requested = true;
    }
}

/// The modifier that triggers shortcuts: Command on macOS, Control elsewhere.
pub open spec fn action_modifier(modifiers: Modifiers, is_macos: bool) -> bool {
    if is_macos { modifiers.meta } else { modifiers.ctrl }
}

} // verus!
