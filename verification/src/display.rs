//! Frame description: the sprite placements that one simulation step asks the
//! compositor to draw.
//!
//! An [`OAM`] is rebuilt fresh on every render request and has no identity
//! beyond its contents: the driver compares it by value against the previous
//! frame and redraws only on a change.

use vstd::prelude::*;

use crate::sprites::Sprite;

verus! {

/// Output width of the panel in pixels.
pub const WIDTH: usize = 144;

/// Output height of the panel in pixels.
pub const HEIGHT: usize = 168;

/// One rectangular placement of a bitmap asset at an integer pixel position.
///
/// `width` and `height` are the asset's size in pixels; `x` and `y` are the
/// top-left corner in output coordinates. An object may sit partially or
/// fully outside the visible output; offscreen parts contribute nothing.
#[derive(Debug, Copy, Clone, Eq, PartialEq, Structural)]
pub struct Object {
    pub sprite: Sprite,
    pub width: u16,
    pub height: u16,
    pub x: u16,
    pub y: u16,
}

/// An ordered sequence of draw objects: the whole visible content of one
/// frame, in insertion order.
#[derive(Debug, Clone)]
pub struct OAM {
    pub objects: Vec<Object>,
}

impl PartialEq for OAM {
    /// Deep structural comparison: same objects, same order, same fields.
    fn eq(&self, other: &OAM) -> (r: bool) {
        if self.objects.len() != other.objects.len() {
            return false;
        }
        let n = self.objects.len();
        let mut i: usize = 0;
        while i < n
            invariant
                n == self.objects.len(),
                n == other.objects.len(),
                i <= n,
                forall|j: int| 0 <= j < i ==> self.objects@[j] == other.objects@[j],
            decreases n - i,
        {
            if self.objects[i] != other.objects[i] {
                return false;
            }
            i = i + 1;
        }
        proof {
            assert(self.objects@ =~= other.objects@);
        }
        true
    }
}

impl vstd::std_specs::cmp::PartialEqSpecImpl for OAM {
    open spec fn obeys_eq_spec() -> bool {
        true
    }

    open spec fn eq_spec(&self, other: &OAM) -> bool {
        self.objects@ == other.objects@
    }
}

impl Eq for OAM {}

} // verus!
