use vstd::prelude::*;
use crate::layout_manager::Layout;
use crate::scene::{SceneBox, SceneID};

verus! {

/// Bit of `EventKind`: a mouse button went down or up.
pub const SDL_MOUSE_CLICK: u64 = 1 << 0;

/// Bit of `EventKind`: the pointer moved.
pub const SDL_MOUSE_HOVER: u64 = 1 << 1;

/// Bit of `EventKind`: a key went down or up.
pub const SDL_KEYBOARD: u64 = 1 << 2;

/// Bit of `EventKind`: any other platform event.
pub const SDL_MISC: u64 = 1 << 3;

/// Bit of `EventKind`: a button reported a press.
pub const BUTTON_PRESSED: u64 = 1 << 4;

/// Bit of `EventKind`: a message from one scene to another.
pub const SCENE_MSG: u64 = 1 << 5;

/// Bit of `EventKind`: anything else.
pub const MISC: u64 = 1 << 6;

/// A set of kinds of events: what a scene subscribes to, or what an event is.
#[derive(Clone, Copy, Debug, PartialEq, Eq, Structural)]
pub struct EventKind {
    pub bits: u64,
}

impl EventKind {
    /// Whether the two sets share a kind.
    pub open spec fn meets(self, other: EventKind) -> bool {
        self.bits & other.bits != 0
    }

    /// The empty set: the kind of what is no event.
    pub fn not_an_event() -> (k: EventKind)
        ensures
            k.bits == 0,
    {
        EventKind { bits: 0 }
    }

    pub fn sdl_mouse_click() -> (k: EventKind)
        ensures
            k.bits == SDL_MOUSE_CLICK,
    {
        EventKind { bits: SDL_MOUSE_CLICK }
    }

    pub fn sdl_mouse_hover() -> (k: EventKind)
        ensures
            k.bits == SDL_MOUSE_HOVER,
    {
        EventKind { bits: SDL_MOUSE_HOVER }
    }

    pub fn sdl_keyboard() -> (k: EventKind)
        ensures
            k.bits == SDL_KEYBOARD,
    {
        EventKind { bits: SDL_KEYBOARD }
    }

    pub fn sdl_misc() -> (k: EventKind)
        ensures
            k.bits == SDL_MISC,
    {
        EventKind { bits: SDL_MISC }
    }

    pub fn button_pressed() -> (k: EventKind)
        ensures
            k.bits == BUTTON_PRESSED,
    {
        EventKind { bits: BUTTON_PRESSED }
    }

    pub fn scene_msg() -> (k: EventKind)
        ensures
            k.bits == SCENE_MSG,
    {
        EventKind { bits: SCENE_MSG }
    }

    pub fn misc() -> (k: EventKind)
        ensures
            k.bits == MISC,
    {
        EventKind { bits: MISC }
    }

    pub fn from_bits(bits: u64) -> (k: EventKind)
        ensures
            k.bits == bits,
    {
        EventKind { bits }
    }

    pub fn bits(&self) -> (b: u64)
        ensures
            b == self.bits,
    {
        self.bits
    }

    /// The kinds of both sets.
    pub fn union(self, other: EventKind) -> (k: EventKind)
        ensures
            k.bits == self.bits | other.bits,
    {
        EventKind { bits: self.bits | other.bits }
    }

    /// Whether the two sets share a kind.
    pub fn intersects(&self, other: EventKind) -> (r: bool)
        ensures
            r == self.meets(other),
    {
        self.bits & other.bits != 0
    }

    /// Whether every kind of `other` is in `self`.
    pub fn contains(&self, other: EventKind) -> (r: bool)
        ensures
            r == (self.bits & other.bits == other.bits),
    {
        self.bits & other.bits == other.bits
    }
}

/// A button of the pointer.
#[derive(Clone, Copy, Debug, PartialEq, Eq, Structural)]
pub enum MouseButton {
    Left,
    Middle,
    Right,
    Other,
}

/// The key that leaves the main loop.
pub const KEY_ESCAPE: i32 = 27;

/// A platform input event, reduced to what the engine and its scenes read.
#[derive(Clone, Copy, Debug, PartialEq, Eq, Structural)]
pub enum Event {
    Quit,
    KeyDown { keycode: Option<i32> },
    KeyUp { keycode: Option<i32> },
    MouseMotion { x: i32, y: i32 },
    MouseButtonDown { mouse_btn: MouseButton, x: i32, y: i32 },
    MouseButtonUp { mouse_btn: MouseButton, x: i32, y: i32 },
    WindowResized { w: i32, h: i32 },
    Other,
}

/// A message of one scene to another.
#[derive(Clone, Copy, Debug, PartialEq, Eq, Structural)]
pub enum SceneMessage {
    IncrementCounter(i32),
    HideCharacter(u32),
}

/// What a scene asks of the engine, or what the engine hands to a scene.
pub enum Action {
    /// A platform input event, handed by the engine to the scenes.
    SdlEvent(Event),
    /// Create a scene on a layer, as a child of the scene that asks.
    Scene { scene: SceneBox, layer: usize },
    /// Create a scene that draws through the immediate-mode toolkit.
    ImmediateUI { scene: SceneBox, layout: Layout, layer: usize },
    /// Create a texture from a text. `size` names a size of the font, such as
    /// "small", "medium" or "big".
    CreateText { font: String, size: String, text: String },
    /// Close the scene that asks, with its descendants.
    CloseCurrentScene,
    /// Close the named scene, with its descendants.
    CloseScene { target_id: SceneID },
    StartMusic { track: String, loops: i32 },
    StopMusic,
    StartSfx { track: String, channel: i32 },
    /// Give the asking scene a place in the layout, or change it.
    RequestLayout(Layout),
    /// A button was pressed and released over itself.
    ButtonPressed,
    SceneMsg { target_id: SceneID, msg: SceneMessage },
}

impl Action {
    /// The kind of event that an action is; the empty set for a request.
    pub open spec fn kind(&self) -> EventKind {
        match self {
            Action::SdlEvent(evt) => match evt {
                Event::MouseButtonDown { .. } | Event::MouseButtonUp { .. } => EventKind {
                    bits: SDL_MOUSE_CLICK,
                },
                Event::KeyDown { .. } | Event::KeyUp { .. } => EventKind { bits: SDL_KEYBOARD },
                _ => EventKind { bits: SDL_MISC },
            },
            Action::ButtonPressed => EventKind { bits: BUTTON_PRESSED },
            Action::SceneMsg { .. } => EventKind { bits: SCENE_MSG },
            _ => EventKind { bits: 0 },
        }
    }

    /// Whether the engine promises a scene identifier for the action.
    pub open spec fn creates_scene(&self) -> bool {
        self is Scene || self is ImmediateUI
    }

    /// Where the pointer went down, if the action is a press of a button.
    pub open spec fn press_point(&self) -> Option<(i32, i32)> {
        match self {
            Action::SdlEvent(Event::MouseButtonDown { x, y, .. }) => Some((*x, *y)),
            _ => None,
        }
    }

    /// Where the pointer went down, if the action is a press of a button.
    pub fn pressed_at(&self) -> (point: Option<(i32, i32)>)
        ensures
            point == self.press_point(),
    {
        match self {
            Action::SdlEvent(Event::MouseButtonDown { x, y, .. }) => Some((*x, *y)),
            _ => None,
        }
    }

    pub fn event_kind(&self) -> (k: EventKind)
        ensures
            k == self.kind(),
    {
        match self {
            Action::SdlEvent(evt) => match evt {
                Event::MouseButtonDown { .. } | Event::MouseButtonUp { .. } => {
                    EventKind::sdl_mouse_click()
                },
                Event::KeyDown { .. } | Event::KeyUp { .. } => EventKind::sdl_keyboard(),
                _ => EventKind::sdl_misc(),
            },
            Action::ButtonPressed => EventKind::button_pressed(),
            Action::SceneMsg { .. } => EventKind::scene_msg(),
            _ => EventKind::not_an_event(),
        }
    }
}

} // verus!
