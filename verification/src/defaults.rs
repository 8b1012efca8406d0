//! Built-in default values of the chart style.

use vstd::prelude::*;
use crate::color::Color;
use crate::units::{Px, Ratio};

verus! {

pub open spec fn default_font_size() -> Px {
    Px { micros: 14_000_000 }
}

pub open spec fn default_step() -> Px {
    Px { micros: 25_000_000 }
}

pub open spec fn default_slant() -> Px {
    Px { micros: 5_000_000 }
}

pub open spec fn default_clockmark_position() -> Ratio {
    Ratio { micros: 500_000 }
}

pub open spec fn default_clockmark_height() -> Px {
    Px { micros: 7_500_000 }
}

pub open spec fn default_clockmark_width() -> Px {
    Px { micros: 6_000_000 }
}

/// Default font size: 14 px.
pub fn font_size() -> (p: Px)
    ensures
        p == default_font_size(),
{
    Px { micros: 14_000_000 }
}

/// Default line-height ratio: 1.2 times the font size.
pub fn lineheight_ratio() -> (r: Ratio)
    ensures
        r.micros == 1_200_000,
{
    Ratio { micros: 1_200_000 }
}

/// Default page margin: 10 px.
pub fn page_margin() -> (p: Px)
    ensures
        p.micros == 10_000_000,
{
    Px { micros: 10_000_000 }
}

/// Default step (width of one time unit): 25 px.
pub fn step() -> (p: Px)
    ensures
        p == default_step(),
{
    Px { micros: 25_000_000 }
}

/// Default slant (width of a transition): 5 px.
pub fn slant() -> (p: Px)
    ensures
        p == default_slant(),
{
    Px { micros: 5_000_000 }
}

/// Default gap between rows: 8 px.
pub fn h_space() -> (p: Px)
    ensures
        p.micros == 8_000_000,
{
    Px { micros: 8_000_000 }
}

/// Default padding between a signal name and its waveform: 8 px.
pub fn namepad() -> (p: Px)
    ensures
        p.micros == 8_000_000,
{
    Px { micros: 8_000_000 }
}

/// Default gap between a signal name and its overline: 2 px.
pub fn overline_gap() -> (p: Px)
    ensures
        p.micros == 2_000_000,
{
    Px { micros: 2_000_000 }
}

/// Default overline stroke width: 1 px.
pub fn overline_thickness() -> (p: Px)
    ensures
        p.micros == 1_000_000,
{
    Px { micros: 1_000_000 }
}

/// Default signal stroke width: 1 px.
pub fn signal_width() -> (p: Px)
    ensures
        p.micros == 1_000_000,
{
    Px { micros: 1_000_000 }
}

/// Default guide stroke width: 1 px.
pub fn guide_width() -> (p: Px)
    ensures
        p.micros == 1_000_000,
{
    Px { micros: 1_000_000 }
}

/// Default clock mark position within the high phase: 0.5.
pub fn clockmark_position() -> (r: Ratio)
    ensures
        r == default_clockmark_position(),
{
    Ratio { micros: 500_000 }
}

/// Default clock mark height: 7.5 px.
pub fn clockmark_height() -> (p: Px)
    ensures
        p == default_clockmark_height(),
{
    Px { micros: 7_500_000 }
}

/// Default clock mark width: 6 px.
pub fn clockmark_width() -> (p: Px)
    ensures
        p == default_clockmark_width(),
{
    Px { micros: 6_000_000 }
}

/// Default don't-care hatch color: `#888888`.
pub fn dontcare_color() -> (c: Color)
    ensures
        c == (Color { r: 136, g: 136, b: 136, a: 255 }),
{
    Color { r: 136, g: 136, b: 136, a: 255 }
}

} // verus!
