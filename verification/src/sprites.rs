//! The bitmap assets: immutable, pre-baked pixel data shared by every
//! placement that names them.
//!
//! An asset is a rectangular monochrome image, row-major, one bit per pixel,
//! most-significant-bit first within each byte, its width a multiple of eight
//! so that every row is a whole number of bytes. Draw objects refer to an
//! asset by name; the registry functions here resolve the name to its pixel
//! data, so the bytes exist once and are never copied into a frame.

use vstd::prelude::*;

verus! {

/// The name of one bitmap asset in the registry.
#[derive(Debug, Copy, Clone, Eq, PartialEq, Structural)]
pub enum Sprite {
    /// A solid 24x24 square: every pixel set.
    Block,
}

/// Width in pixels of an asset; always a multiple of 8.
pub open spec fn sprite_width(s: Sprite) -> nat {
    24
}

/// Height in pixels of an asset.
pub open spec fn sprite_height(s: Sprite) -> nat {
    24
}

/// The asset's pixel data: `width / 8` bytes per row, `height` rows.
pub open spec fn sprite_data(s: Sprite) -> Seq<u8> {
    Seq::new(72, |i: int| 0xFFu8)
}

/// A byte of an asset's pixel data, with reads past the end yielding zero:
/// the compositor probes one byte beyond a row when an object is placed off
/// byte alignment, and such probes must act as blank, not fail.
pub open spec fn spec_sprite_fetch(s: Sprite, i: int) -> u8 {
    if 0 <= i < sprite_data(s).len() {
        sprite_data(s)[i]
    } else {
        0
    }
}

/// Resolves one byte of an asset's pixel data; out-of-range reads are blank.
pub fn sprite_fetch(s: Sprite, i: usize) -> (r: u8)
    ensures
        r == spec_sprite_fetch(s, i as int),
{
    match s {
        Sprite::Block => {
            if i < 72 {
                0xFF
            } else {
                0
            }
        },
    }
}

} // verus!
