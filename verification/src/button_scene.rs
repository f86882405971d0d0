use vstd::prelude::*;
use crate::action::{Action, Event, EventKind, MouseButton, SDL_MOUSE_CLICK};
use crate::action_bus::ActionBus;
use crate::geometry::{Color, Rect};
use crate::hg::HamID;
use crate::layout_manager::Layout;
use crate::renderer::{DrawCommand, Renderer};
use crate::scene::{Scene, SceneBox, SceneID};
use crate::text_scene::TextScene;
use crate::utils::is_point_in_rect;

verus! {

/// The layer of the label of a button.
pub const LABEL_LAYER: usize = 4;

/// A button: a rectangle that is pressed with the left button of the
/// pointer, and tells the engine when it is released over itself.
pub struct ButtonScene {
    pos: Option<Rect>,
    lil_name: String,
    pressed: bool,
    color_tmp: Color,
    layout: Layout,
}

/// What a button does with an action, from its state: whether it consumes
/// the action, whether it is pressed afterwards, and whether it tells the
/// engine that it was pressed.
///
/// A button without a place hears nothing. The left button going down
/// presses it. The left button going up releases a pressed button, which
/// tells the engine where the pointer is over it; a button that is not
/// pressed lets the event pass. Nothing else concerns it.
pub open spec fn button_step(pos: Option<Rect>, pressed: bool, action: Action) -> (bool, bool, bool) {
    if pos is None {
        (false, pressed, false)
    } else {
        match action {
            Action::SdlEvent(Event::MouseButtonDown { mouse_btn: MouseButton::Left, .. }) => (
                true,
                true,
                false,
            ),
            Action::SdlEvent(Event::MouseButtonUp { mouse_btn: MouseButton::Left, x, y }) => {
                if !pressed {
                    (false, false, false)
                } else {
                    (true, false, pos->Some_0.contains(x as int, y as int))
                }
            },
            _ => (false, pressed, false),
        }
    }
}

impl ButtonScene {
    /// The rectangle of the button; none until the layout has told it.
    pub closed spec fn pos(&self) -> Option<Rect> {
        self.pos
    }

    /// Whether the button is held down.
    pub closed spec fn pressed(&self) -> bool {
        self.pressed
    }

    pub closed spec fn color(&self) -> Color {
        self.color_tmp
    }

    pub closed spec fn layout(&self) -> Layout {
        self.layout
    }

    pub closed spec fn label(&self) -> Seq<char> {
        self.lil_name@
    }

    /// A button with a label and a colour, that is not pressed and has no
    /// place yet.
    pub fn new(lil_name: &str, color_tmp: Color, layout: Layout) -> (button: ButtonScene)
        ensures
            button.pos() is None,
            !button.pressed(),
            button.color() == color_tmp,
            button.layout() == layout,
            button.label() == lil_name@,
    {
        Self { pos: None, lil_name: lil_name.to_owned(), pressed: false, color_tmp, layout }
    }
}

impl Scene for ButtonScene {
    /// A button wants the clicks of the pointer.
    fn subscriptions(&self) -> (kinds: EventKind)
        ensures
            kinds.bits == SDL_MOUSE_CLICK,
    {
        EventKind::sdl_mouse_click()
    }

    /// A button is pressed on its rectangle; one without a place, nowhere.
    fn left_click_zone(&self) -> (zone: Option<Rect>)
        ensures
            zone == self.pos(),
    {
        self.pos
    }

    fn is_modal(&self) -> (modal: bool)
        ensures
            !modal,
    {
        false
    }

    fn is_immediate(&self) -> (immediate: bool)
        ensures
            !immediate,
    {
        false
    }

    /// A button is called by its label.
    fn name(&self) -> (name: &str)
        ensures
            name@ == self.label(),
    {
        self.lil_name.as_str()
    }

    /// Asks for a place in the layout, and for a text scene with the label
    /// as a child. A bus without room for the child is asked for the place
    /// only.
    fn init(&mut self, action_bus: &mut ActionBus)
        ensures
            final(self).pos() == old(self).pos(),
            final(self).pressed() == old(self).pressed(),
            final(self).color() == old(self).color(),
            final(self).layout() == old(self).layout(),
            final(self).label() == old(self).label(),
            ({
                let before = old(action_bus)@;
                let placed = before.pushed(Action::RequestLayout(old(self).layout()));
                let after = final(action_bus)@;
                if before.future_scene_id < u64::MAX {
                    let label = after.deferred.last();
                    &&& after.deferred.len() == placed.deferred.len() + 1
                    &&& after.deferred.drop_last() == placed.deferred
                    &&& label.source_scene == before.source
                    &&& label.back_id == Some(HamID::SceneID(before.future_scene_id))
                    &&& label.action matches Action::Scene { layer, .. } && layer == LABEL_LAYER
                    &&& after.future_scene_id == before.future_scene_id + 1
                    &&& after.prioritary == before.prioritary
                    &&& after.source == before.source
                    &&& after.sprite_base == before.sprite_base
                    &&& after.sprite_offset == before.sprite_offset
                } else {
                    after == placed
                }
            }),
    {
        action_bus.push(Action::RequestLayout(self.layout));
        let ghost placed = action_bus@;
        let label = Action::Scene {
            scene: SceneBox::new(Box::new(TextScene::new(self.lil_name.clone(), "big".to_owned()))),
            layer: LABEL_LAYER,
        };
        if action_bus.has_room(&label) {
            action_bus.push(label);
            proof {
                assert(action_bus@.deferred.drop_last() =~= placed.deferred);
            }
        }
    }

    /// Fills the rectangle of the button: in blue while it is pressed, in
    /// its own colour otherwise. A button without a place draws nothing.
    fn render(&self, renderer: &mut Renderer)
        ensures
            final(renderer)@ == match self.pos() {
                Some(rect) => old(renderer)@.push(
                    DrawCommand::FillRect {
                        rect,
                        color: if self.pressed() {
                            Color { r: 0, g: 100, b: 255, a: 255 }
                        } else {
                            self.color()
                        },
                    },
                ),
                None => old(renderer)@,
            },
    {
        match self.pos {
            Some(rect) => {
                if self.pressed {
                    renderer.fill_rect(rect, Color::RGB(0, 100, 255));
                } else {
                    renderer.fill_rect(rect, self.color_tmp);
                }
            },
            None => {},
        }
    }

    fn handle_action(
        &mut self,
        action: &Action,
        origin: Option<SceneID>,
        action_bus: &mut ActionBus,
    ) -> (consumed: bool)
        ensures
            final(self).pos() == old(self).pos(),
            consumed == button_step(old(self).pos(), old(self).pressed(), *action).0,
            final(self).pressed() == button_step(old(self).pos(), old(self).pressed(), *action).1,
            final(action_bus)@ == if button_step(old(self).pos(), old(self).pressed(), *action).2 {
                old(action_bus)@.pushed(Action::ButtonPressed)
            } else {
                old(action_bus)@
            },
    {
        let rect = match self.pos {
            Some(rect) => rect,
            None => {
                return false;
            },
        };
        match action {
            Action::SdlEvent(Event::MouseButtonDown { mouse_btn: MouseButton::Left, .. }) => {
                self.pressed = true;
                true
            },
            Action::SdlEvent(Event::MouseButtonUp { mouse_btn: MouseButton::Left, x, y }) => {
                if !self.pressed {
                    return false;
                }
                self.pressed = false;
                if is_point_in_rect(&rect, *x, *y) {
                    action_bus.push(Action::ButtonPressed);
                }
                true
            },
            _ => false,
        }
    }

    fn pos_changed(&mut self, rect: Rect)
        ensures
            final(self).pos() == Some(rect),
            final(self).pressed() == old(self).pressed(),
    {
        self.pos = Some(rect);
    }
}

} // verus!
