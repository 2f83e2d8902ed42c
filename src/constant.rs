//! Palette of the editor.

use vstd::prelude::*;
use crate::color::Color;

verus! {

/// Named colors of the editor.
#[non_exhaustive]
pub struct Constant;

impl Constant {
    pub open spec fn spec_primary_color() -> Color {
        Color::spec_white()
    }

    /// Fill of a state node, and color of edges and labels.
    pub fn primary_color() -> (c: Color)
        ensures
            c == Constant::spec_primary_color(),
    {
        Color::white()
    }

    /// Color of a selected label.
    pub fn selected_color() -> (c: Color)
        ensures
            c == (Color { r: 0, g: 255, b: 255, a: 255 }),
    {
        Color::rgb(0, 255, 255)
    }

    /// Background of the window.
    pub fn background() -> (c: Color)
        ensures
            c == (Color { r: 62, g: 62, b: 62, a: 255 }),
    {
        Color::rgb(62, 62, 62)
    }

    /// Background of the diagram and of the text editor.
    pub fn background_2() -> (c: Color)
        ensures
            c == (Color { r: 41, g: 41, b: 41, a: 255 }),
    {
        Color::rgb(41, 41, 41)
    }

    /// Fill of a tape cell.
    pub fn foreground() -> (c: Color)
        ensures
            c == (Color { r: 109, g: 109, b: 109, a: 255 }),
    {
        Color::rgb(109, 109, 109)
    }

    /// Color of an accepted run.
    pub fn positive_color() -> (c: Color)
        ensures
            c == (Color { r: 0, g: 255, b: 0, a: 255 }),
    {
        Color::rgb(0, 255, 0)
    }

    /// Color of a rejected run.
    pub fn negative_color() -> (c: Color)
        ensures
            c == (Color { r: 255, g: 0, b: 0, a: 255 }),
    {
        Color::rgb(255, 0, 0)
    }
}

} // verus!
