//! The colour that shows a region's permissions.

use vstd::prelude::*;
use crate::region::MemoryAttributes;

verus! {

/// A colour as red, green and blue, each from 0 to 255.
#[derive(Debug, Clone, Copy, PartialEq, Eq, Structural)]
pub struct Rgb {
    pub r: u8,
    pub g: u8,
    pub b: u8,
}

/// Full intensity where the permission is granted, none where it is not.
pub open spec fn channel(granted: bool) -> u8 {
    if granted {
        255u8
    } else {
        0u8
    }
}

/// The colour of a region with the given attributes.
///
/// Unmapped space is black. A mapped region shows reading as red, writing
/// as green and executing as blue; one that grants none of the three is
/// mid-grey, so that it cannot be taken for unmapped space. `private` has
/// no part in the colour.
pub open spec fn color_of(a: MemoryAttributes) -> Rgb {
    if !a.allocated {
        Rgb { r: 0, g: 0, b: 0 }
    } else if !a.readable && !a.writable && !a.executable {
        Rgb { r: 128, g: 128, b: 128 }
    } else {
        Rgb { r: channel(a.readable), g: channel(a.writable), b: channel(a.executable) }
    }
}

/// Maps a region's attributes to its colour.
pub fn memory_type_color(attributes: &MemoryAttributes) -> (color: Rgb)
    ensures
        color == color_of(*attributes),
{
    if !attributes.allocated {
        return Rgb { r: 0, g: 0, b: 0 };
    }
    let r: u8 = if attributes.readable { 255 } else { 0 };
    let g: u8 = if attributes.writable { 255 } else { 0 };
    let b: u8 = if attributes.executable { 255 } else { 0 };
    if r == 0 && g == 0 && b == 0 {
        Rgb { r: 128, g: 128, b: 128 }
    } else {
        Rgb { r, g, b }
    }
}

/// The colours that a mapped region can have: mid-grey and the seven
/// mixtures of full red, green and blue that are not black.
pub open spec fn palette() -> Seq<Rgb> {
    seq![
        Rgb { r: 128, g: 128, b: 128 },
        Rgb { r: 0, g: 0, b: 255 },
        Rgb { r: 0, g: 255, b: 0 },
        Rgb { r: 0, g: 255, b: 255 },
        Rgb { r: 255, g: 0, b: 0 },
        Rgb { r: 255, g: 0, b: 255 },
        Rgb { r: 255, g: 255, b: 0 },
        Rgb { r: 255, g: 255, b: 255 },
    ]
}

/// The place in the palette of the colour for the three permissions.
pub open spec fn palette_index(readable: bool, writable: bool, executable: bool) -> int {
    (if readable { 4int } else { 0 }) + (if writable { 2int } else { 0 }) + (if executable { 1int } else { 0 })
}

/// Unmapped space is black whatever its flags say. A mapped region has the
/// colour of the palette that belongs to its three permissions, which is
/// never black.
pub proof fn lemma_color_is_total(a: MemoryAttributes)
    ensures
        !a.allocated ==> color_of(a) == (Rgb { r: 0, g: 0, b: 0 }),
        a.allocated ==> color_of(a) == palette()[palette_index(
            a.readable,
            a.writable,
            a.executable,
        )],
        a.allocated ==> palette().contains(color_of(a)),
        a.allocated ==> color_of(a) != (Rgb { r: 0, g: 0, b: 0 }),
{
    if a.allocated {
        let i = palette_index(a.readable, a.writable, a.executable);
        assert(0 <= i < 8);
        assert(palette()[i] == color_of(a));
    }
}

/// The eight colours of the palette are all different, so two mapped
/// regions have the same colour exactly where they grant the same reading,
/// writing and executing. `private` makes no difference.
pub proof fn lemma_color_tells_permissions(a: MemoryAttributes, b: MemoryAttributes)
    requires
        a.allocated,
        b.allocated,
    ensures
        color_of(a) == color_of(b) <==> (a.readable == b.readable && a.writable == b.writable
            && a.executable == b.executable),
        forall|i: int, j: int| 0 <= i < j < palette().len() ==> palette()[i] != palette()[j],
        palette().len() == 8,
{
}

} // verus!
