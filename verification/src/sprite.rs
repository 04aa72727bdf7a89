//! The decoded data: sprites and the container that holds them.
use crate::canvas::{is_sentinel, SIZE_LIMIT};
use vstd::prelude::*;

verus! {

/// One decoded image: where it came from, the nine words of its header, and
/// its pixels.
///
/// `pixels` holds one 16-bit packed colour per pixel, low byte first, row
/// after row.
#[derive(Debug, Clone, PartialEq, Eq)]
pub struct Sprite {
    /// The number of the container, as the caller gave it.
    pub file_number: u32,
    /// The sprite's slot in the offset table of its container, from 0.
    pub index: u32,
    /// Where the sprite's header starts in the container.
    pub offset: u32,
    pub length: u32,
    pub offset_x: u32,
    pub offset_y: u32,
    pub width: u32,
    pub height: u32,
    pub reserved_1: u32,
    pub reserved_2: u32,
    pub reserved_3: u32,
    pub reserved_4: u32,
    pub pixels: Vec<u8>,
}

/// A sprite as a mathematical value.
pub struct SpriteView {
    pub file_number: u32,
    pub index: u32,
    pub offset: u32,
    pub length: u32,
    pub offset_x: u32,
    pub offset_y: u32,
    pub width: u32,
    pub height: u32,
    pub reserved_1: u32,
    pub reserved_2: u32,
    pub reserved_3: u32,
    pub reserved_4: u32,
    pub pixels: Seq<u8>,
}

impl SpriteView {
    /// True for a sprite too large to be decoded.
    pub open spec fn is_sentinel(self) -> bool {
        is_sentinel(self.width, self.height)
    }

    /// The length that the pixel buffer of a decoded sprite has: two bytes
    /// per pixel, or the two bytes of a sentinel's placeholder.
    pub open spec fn pixel_bytes(self) -> int {
        if self.is_sentinel() {
            2
        } else {
            self.width * self.height * 2
        }
    }

    /// True when the pixel buffer has the length that the size calls for.
    pub open spec fn well_formed(self) -> bool {
        self.pixels.len() == self.pixel_bytes()
    }
}

impl View for Sprite {
    type V = SpriteView;

    open spec fn view(&self) -> SpriteView {
        SpriteView {
            file_number: self.file_number,
            index: self.index,
            offset: self.offset,
            length: self.length,
            offset_x: self.offset_x,
            offset_y: self.offset_y,
            width: self.width,
            height: self.height,
            reserved_1: self.reserved_1,
            reserved_2: self.reserved_2,
            reserved_3: self.reserved_3,
            reserved_4: self.reserved_4,
            pixels: self.pixels@,
        }
    }
}

impl Sprite {
    /// Says whether the sprite is a sentinel: one whose pixels were not
    /// decoded because its width or height reaches the size limit.
    pub fn is_sentinel(&self) -> (b: bool)
        ensures
            b == self@.is_sentinel(),
    {
        self.width >= SIZE_LIMIT || self.height >= SIZE_LIMIT
    }
}

/// The sprites of one container, in the order of its offset table. Slots of
/// the table that hold no sprite leave no gap here: a sprite's slot is its
/// `index`, not its place in `sprites`.
#[derive(Debug, Clone, PartialEq, Eq)]
pub struct Container {
    /// The word between the identifier and the sprite count, kept as read.
    pub reserved: u32,
    pub sprites: Vec<Sprite>,
}

/// A container as a mathematical value.
pub struct ContainerView {
    pub reserved: u32,
    pub sprites: Seq<SpriteView>,
}

/// The sprites of a vector as mathematical values.
pub open spec fn views_of(sprites: Seq<Sprite>) -> Seq<SpriteView> {
    Seq::new(sprites.len(), |i: int| sprites[i]@)
}

impl View for Container {
    type V = ContainerView;

    open spec fn view(&self) -> ContainerView {
        ContainerView { reserved: self.reserved, sprites: views_of(self.sprites@) }
    }
}

} // verus!
