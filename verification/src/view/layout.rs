//! Where a box stands on the screen.

use vstd::prelude::*;

verus! {

/// The smaller of `a` and `b`.
pub open spec fn at_most(a: nat, b: nat) -> nat {
    if a <= b { a } else { b }
}

/// A box of `width` by `height` in the middle of the area at (`x`, `y`) of
/// `area_width` by `area_height`, cut to fit: its left, top, width and height.
/// An odd margin leaves the extra column or row after the box.
pub open spec fn centred(
    x: nat,
    y: nat,
    area_width: nat,
    area_height: nat,
    width: nat,
    height: nat,
) -> (nat, nat, nat, nat) {
    let w = at_most(width, area_width);
    let h = at_most(height, area_height);
    (x + (area_width - w) as nat / 2, y + (area_height - h) as nat / 2, w, h)
}

/// A box of `width` by `height` in the middle of an area, cut to fit. The
/// area lies on the screen, so its far edges are still coordinates.
pub fn centered(x: u16, y: u16, area_width: u16, area_height: u16, width: u16, height: u16) -> (r: (
    u16,
    u16,
    u16,
    u16,
))
    requires
        x + area_width <= u16::MAX,
        y + area_height <= u16::MAX,
    ensures
        (r.0 as nat, r.1 as nat, r.2 as nat, r.3 as nat) == centred(
            x as nat,
            y as nat,
            area_width as nat,
            area_height as nat,
            width as nat,
            height as nat,
        ),
{
    let w = if width <= area_width { width } else { area_width };
    let h = if height <= area_height { height } else { area_height };
    (x + (area_width - w) / 2, y + (area_height - h) / 2, w, h)
}

} // verus!
