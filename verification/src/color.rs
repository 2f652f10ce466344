//! Colours with four fixed-point channels.

use vstd::prelude::*;
use crate::scalar::{div_trunc, UNIT};

verus! {

/// A colour. Each channel runs from 0 to `UNIT`.
#[derive(Clone, Copy, PartialEq, Eq, Structural, Debug)]
pub struct Color {
    pub r: i64,
    pub g: i64,
    pub b: i64,
    pub a: i64,
}

/// The mean of two channel values, rounded toward zero.
pub open spec fn spec_mean(a: int, b: int) -> int {
    div_trunc(a + b, 2)
}

/// The colour halfway between `a` and `b`, channel by channel.
pub open spec fn spec_mix(a: Color, b: Color) -> Color {
    Color {
        r: spec_mean(a.r as int, b.r as int) as i64,
        g: spec_mean(a.g as int, b.g as int) as i64,
        b: spec_mean(a.b as int, b.b as int) as i64,
        a: spec_mean(a.a as int, b.a as int) as i64,
    }
}

impl Color {
    /// Every channel lies between 0 and `UNIT`.
    pub open spec fn valid(self) -> bool {
        &&& 0 <= self.r <= UNIT
        &&& 0 <= self.g <= UNIT
        &&& 0 <= self.b <= UNIT
        &&& 0 <= self.a <= UNIT
    }

    /// The opaque colour with the given channels.
    pub fn rgb(r: i64, g: i64, b: i64) -> (c: Color)
        ensures
            c == (Color { r, g, b, a: UNIT }),
    {
        Color { r, g, b, a: UNIT }
    }

    /// The colour with the given channels.
    pub fn rgba(r: i64, g: i64, b: i64, a: i64) -> (c: Color)
        ensures
            c == (Color { r, g, b, a }),
    {
        Color { r, g, b, a }
    }

    /// Opaque white.
    pub fn white() -> (c: Color)
        ensures
            c == (Color { r: UNIT, g: UNIT, b: UNIT, a: UNIT }),
    {
        Color { r: UNIT, g: UNIT, b: UNIT, a: UNIT }
    }

    /// Opaque black.
    pub fn black() -> (c: Color)
        ensures
            c == (Color { r: 0, g: 0, b: 0, a: UNIT }),
    {
        Color { r: 0, g: 0, b: 0, a: UNIT }
    }

    /// Opaque red.
    pub fn red() -> (c: Color)
        ensures
            c == (Color { r: UNIT, g: 0, b: 0, a: UNIT }),
    {
        Color { r: UNIT, g: 0, b: 0, a: UNIT }
    }

    /// Opaque green.
    pub fn green() -> (c: Color)
        ensures
            c == (Color { r: 0, g: UNIT, b: 0, a: UNIT }),
    {
        Color { r: 0, g: UNIT, b: 0, a: UNIT }
    }
}

/// The mean of two channel values, rounded toward zero.
fn mean(a: i64, b: i64) -> (r: i64)
    ensures
        r == spec_mean(a as int, b as int),
        a <= r <= b || b <= r <= a,
{
    (((a as i128) + (b as i128)) / 2) as i64
}

/// The colour halfway between `a` and `b`, channel by channel.
pub fn mix(a: Color, b: Color) -> (c: Color)
    ensures
        c == spec_mix(a, b),
        a.valid() && b.valid() ==> c.valid(),
{
    Color { r: mean(a.r, b.r), g: mean(a.g, b.g), b: mean(a.b, b.b), a: mean(a.a, b.a) }
}

} // verus!
