use vstd::prelude::*;
use crate::geometry::{Color, Rect};

verus! {

/// One drawing primitive, as the backend is to perform it.
#[derive(Clone, Copy, Debug, PartialEq, Eq)]
pub enum DrawCommand {
    /// Fill a rectangle with a colour.
    FillRect { rect: Rect, color: Color },
    /// Draw a sprite of the store with its top-left corner at a position,
    /// with an opacity if one is given.
    Sprite { sprite_id: usize, x: i32, y: i32, alpha: Option<u8> },
}

/// What the scenes draw during one frame: the primitives in the order in
/// which they were asked for. The backend performs them and clears the list.
pub struct Renderer {
    commands: Vec<DrawCommand>,
}

impl View for Renderer {
    type V = Seq<DrawCommand>;

    closed spec fn view(&self) -> Seq<DrawCommand> {
        self.commands@
    }
}

impl Renderer {
    pub fn new() -> (r: Renderer)
        ensures
            r@ == Seq::<DrawCommand>::empty(),
    {
        Renderer { commands: Vec::new() }
    }

    /// Asks for a sprite at a position.
    pub fn render_sprite(&mut self, sprite_id: usize, pos_x: i32, pos_y: i32, alpha: Option<u8>)
        ensures
            final(self)@ == old(self)@.push(
                DrawCommand::Sprite { sprite_id, x: pos_x, y: pos_y, alpha },
            ),
    {
        self.commands.push(DrawCommand::Sprite { sprite_id, x: pos_x, y: pos_y, alpha });
    }

    /// Asks for a filled rectangle.
    pub fn fill_rect(&mut self, rect: Rect, color: Color)
        ensures
            final(self)@ == old(self)@.push(DrawCommand::FillRect { rect, color }),
    {
        self.commands.push(DrawCommand::FillRect { rect, color });
    }

    /// Hands out what was asked for since the last call, oldest first.
    pub fn take_commands(&mut self) -> (taken: Vec<DrawCommand>)
        ensures
            taken@ == old(self)@,
            final(self)@ == Seq::<DrawCommand>::empty(),
    {
        let mut taken: Vec<DrawCommand> = Vec::new();
        std::mem::swap(&mut self.commands, &mut taken);
        taken
    }
}

} // verus!
