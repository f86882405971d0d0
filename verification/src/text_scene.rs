use vstd::prelude::*;
use crate::action::{Action, EventKind};
use crate::action_bus::ActionBus;
use crate::geometry::Rect;
use crate::hg::HamID;
use crate::layout_manager::Layout;
use crate::renderer::{DrawCommand, Renderer};
use crate::scene::Scene;

verus! {

/// The font of every text scene.
pub const TEXT_FONT: &'static str = "VcrOsdMono";

/// A scene that shows one line of text.
pub struct TextScene {
    text: String,
    idx_text: usize,
    pos: Rect,
    size: String,
}

impl TextScene {
    /// The sprite that the scene draws: 0 until the scene has set itself up
    /// and was promised one.
    pub closed spec fn sprite(&self) -> usize {
        self.idx_text
    }

    /// Where the scene draws.
    pub closed spec fn pos(&self) -> Rect {
        self.pos
    }

    pub closed spec fn text(&self) -> Seq<char> {
        self.text@
    }

    pub closed spec fn size(&self) -> Seq<char> {
        self.size@
    }

    /// A scene for `text`, in the size of the font that `size` names. It
    /// draws at (25, 25) until the layout tells it where.
    pub fn new(text: String, size: String) -> (scene: TextScene)
        ensures
            scene.text() == text@,
            scene.size() == size@,
            scene.sprite() == 0,
            scene.pos() == (Rect { x: 25, y: 25, w: 100, h: 100 }),
    {
        Self { text, idx_text: 0, pos: Rect::new(25, 25, 100, 100), size }
    }
}

impl Scene for TextScene {
    /// A text wants no event.
    fn subscriptions(&self) -> (kinds: EventKind)
        ensures
            kinds.bits == 0,
    {
        EventKind::not_an_event()
    }

    /// A text cannot be pressed.
    fn left_click_zone(&self) -> (zone: Option<Rect>)
        ensures
            zone is None,
    {
        None
    }

    fn is_modal(&self) -> (modal: bool)
        ensures
            !modal,
    {
        false
    }

    fn is_immediate(&self) -> (immediate: bool)
        ensures
            !immediate,
    {
        false
    }

    /// Asks for the texture of the text, remembers the sprite that was
    /// promised for it, and asks for a place in the layout. A bus without
    /// room for the promise is left alone.
    fn init(&mut self, action_bus: &mut ActionBus)
        ensures
            final(self).pos() == old(self).pos(),
            final(self).text() == old(self).text(),
            final(self).size() == old(self).size(),
            old(action_bus)@.sprite_base + old(action_bus)@.sprite_offset < usize::MAX ==> {
                let asked = final(action_bus)@.prioritary.last();
                let placed = final(action_bus)@.deferred.last();
                &&& final(self).sprite() == old(action_bus)@.sprite_base + old(action_bus)@.sprite_offset
                &&& final(action_bus)@.prioritary.len() == old(action_bus)@.prioritary.len() + 1
                &&& final(action_bus)@.prioritary.drop_last() == old(action_bus)@.prioritary
                &&& asked.source_scene == old(action_bus)@.source
                &&& asked.back_id == Some(HamID::SpriteID(final(self).sprite()))
                &&& asked.action matches Action::CreateText { font, size, text } && font@
                    == TEXT_FONT@ && size@ == old(self).size() && text@ == old(self).text()
                &&& final(action_bus)@.deferred.len() == old(action_bus)@.deferred.len() + 1
                &&& final(action_bus)@.deferred.drop_last() == old(action_bus)@.deferred
                &&& placed.source_scene == old(action_bus)@.source
                &&& placed.back_id is None
                &&& placed.action == Action::RequestLayout(Layout::spec_default())
                &&& final(action_bus)@.sprite_offset == old(action_bus)@.sprite_offset + 1
                &&& final(action_bus)@.sprite_base == old(action_bus)@.sprite_base
                &&& final(action_bus)@.future_scene_id == old(action_bus)@.future_scene_id
                &&& final(action_bus)@.source == old(action_bus)@.source
            },
            old(action_bus)@.sprite_base + old(action_bus)@.sprite_offset >= usize::MAX ==> final(action_bus)@ == old(action_bus)@ && final(self).sprite() == old(self).sprite(),
    {
        let request = Action::CreateText {
            font: TEXT_FONT.to_owned(),
            size: self.size.clone(),
            text: self.text.clone(),
        };
        if action_bus.has_room(&request) {
            if let Some(HamID::SpriteID(id)) = action_bus.push(request) {
                self.idx_text = id;
            }
            let ghost asked = action_bus@;
            let place = Action::RequestLayout(Layout::default());
            action_bus.push(place);
            proof {
                assert(asked.prioritary.drop_last() =~= old(action_bus)@.prioritary);
                assert(action_bus@.deferred.drop_last() =~= old(action_bus)@.deferred);
            }
        }
    }

    /// Draws the sprite of the text at the place of the scene.
    fn render(&self, renderer: &mut Renderer)
        ensures
            final(renderer)@ == old(renderer)@.push(
                DrawCommand::Sprite {
                    sprite_id: self.sprite(),
                    x: self.pos().x,
                    y: self.pos().y,
                    alpha: None,
                },
            ),
    {
        renderer.render_sprite(self.idx_text, self.pos.x, self.pos.y, None);
    }

    fn pos_changed(&mut self, pos: Rect)
        ensures
            final(self).pos() == pos,
            final(self).sprite() == old(self).sprite(),
    {
        self.pos = pos;
    }
}

} // verus!
