use vstd::prelude::*;
use crate::geometry::Rect;

verus! {

/// A part of a texture: the rectangle of the part and the texture.
#[derive(Clone, Copy, Debug, PartialEq, Eq, Structural)]
pub struct Sprite {
    /// The part of the texture that the sprite shows.
    pub src_rect: Rect,
    /// The place of the texture among the textures.
    pub texture_id: usize,
}

impl Sprite {
    pub fn new(src_rect: Rect, texture_id: usize) -> (sprite: Sprite)
        ensures
            sprite == (Sprite { src_rect, texture_id }),
    {
        Sprite { src_rect, texture_id }
    }
}

/// A sprite as the sheet description names it.
#[derive(Debug)]
pub struct SpriteJsonRep {
    pub name: String,
    pub x: i32,
    pub y: i32,
    pub w: u32,
    pub h: u32,
    /// Whether the sprite is to have a texture of its own.
    pub make_alone: Option<bool>,
}

/// A sheet of sprites as the description names it: an image file and the
/// sprites cut from it.
#[derive(Debug)]
pub struct SpriteSheetJsonRep {
    pub file: String,
    pub sprites: Vec<SpriteJsonRep>,
}

pub type SpriteDescJsonRep = Vec<SpriteSheetJsonRep>;

/// The sprites of one sheet, in their order, on the texture `texture_id`.
pub open spec fn sheet_sprites(sprites: Seq<SpriteJsonRep>, texture_id: usize) -> Seq<Sprite> {
    Seq::new(
        sprites.len(),
        |i: int|
            Sprite {
                src_rect: Rect {
                    x: sprites[i].x,
                    y: sprites[i].y,
                    w: sprites[i].w,
                    h: sprites[i].h,
                },
                texture_id,
            },
    )
}

/// The sprites of the first `upto` sheets, sheet after sheet; the sheet at
/// place `t` is the texture `t`.
pub open spec fn described_sprites(sheets: Seq<SpriteSheetJsonRep>, upto: int) -> Seq<Sprite>
    decreases upto,
{
    if upto <= 0 {
        Seq::empty()
    } else {
        described_sprites(sheets, upto - 1) + sheet_sprites(
            sheets[upto - 1].sprites@,
            (upto - 1) as usize,
        )
    }
}

/// Where a sprite lands: its texture, the part of the texture, and the
/// rectangle on the screen, of the size of the part.
#[derive(Clone, Copy, Debug, PartialEq, Eq, Structural)]
pub struct Placement {
    pub texture_id: usize,
    pub src_rect: Rect,
    pub dest_rect: Rect,
}

/// The sprites of an application, each known by its place in the store.
pub struct SpriteStore {
    store: Vec<Sprite>,
}

impl View for SpriteStore {
    type V = Seq<Sprite>;

    closed spec fn view(&self) -> Seq<Sprite> {
        self.store@
    }
}

impl SpriteStore {
    /// A store of the sprites that the sheets describe, sheet after sheet.
    /// The sheet at place `t` is the texture `t`.
    pub fn new(sheets: &Vec<SpriteSheetJsonRep>) -> (sprites: SpriteStore)
        ensures
            sprites@ == described_sprites(sheets@, sheets@.len() as int),
    {
        let mut store: Vec<Sprite> = Vec::new();
        let mut t: usize = 0;
        while t < sheets.len()
            invariant
                t <= sheets@.len(),
                store@ == described_sprites(sheets@, t as int),
            decreases sheets@.len() - t,
        {
            let sheet = &sheets[t];
            let ghost below = store@;
            let mut i: usize = 0;
            while i < sheet.sprites.len()
                invariant
                    i <= sheet.sprites@.len(),
                    store@ == below + sheet_sprites(sheet.sprites@, t).take(i as int),
                decreases sheet.sprites@.len() - i,
            {
                let js = &sheet.sprites[i];
                store.push(Sprite::new(Rect::new(js.x, js.y, js.w, js.h), t));
                proof {
                    assert(store@ =~= below + sheet_sprites(sheet.sprites@, t).take(i + 1));
                }
                i += 1;
            }
            proof {
                assert(sheet_sprites(sheet.sprites@, t).take(i as int) =~= sheet_sprites(
                    sheet.sprites@,
                    t,
                ));
            }
            t += 1;
        }
        SpriteStore { store }
    }

    /// The number of sprites: the identifier of the next sprite that is
    /// created.
    pub fn shared_len(&self) -> (len: usize)
        ensures
            len == self@.len(),
    {
        self.store.len()
    }

    /// Takes in the sprite of a text that was rendered into the texture
    /// `texture_id`, `width` by `height` units large. The sprite shows the
    /// whole texture. Returns the identifier of the sprite.
    pub fn commit_ttf_texture(&mut self, width: u32, height: u32, texture_id: usize) -> (sprite_id:
        usize)
        ensures
            sprite_id == old(self)@.len(),
            final(self)@ == old(self)@.push(
                Sprite { src_rect: Rect { x: 0, y: 0, w: width, h: height }, texture_id },
            ),
    {
        self.store.push(Sprite::new(Rect::new(0, 0, width, height), texture_id));
        self.store.len() - 1
    }

    /// Where the sprite lands when it is drawn with its top-left corner at
    /// `(x, y)`; nothing where the store holds no such sprite.
    pub fn render(&self, sprite_id: usize, x: i32, y: i32) -> (placement: Option<Placement>)
        ensures
            placement == if sprite_id < self@.len() {
                Some(
                    Placement {
                        texture_id: self@[sprite_id as int].texture_id,
                        src_rect: self@[sprite_id as int].src_rect,
                        dest_rect: Rect {
                            x,
                            y,
                            w: self@[sprite_id as int].src_rect.w,
                            h: self@[sprite_id as int].src_rect.h,
                        },
                    },
                )
            } else {
                None
            },
    {
        if sprite_id < self.store.len() {
            let sprite = &self.store[sprite_id];
            Some(
                Placement {
                    texture_id: sprite.texture_id,
                    src_rect: sprite.src_rect,
                    dest_rect: Rect::new(x, y, sprite.src_rect.w, sprite.src_rect.h),
                },
            )
        } else {
            None
        }
    }
}

} // verus!
