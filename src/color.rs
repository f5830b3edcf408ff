//! Mapping of client drawing attributes to the palette and brush categories.
use vstd::prelude::*;
use crate::models::{BrushSize, Color};
use crate::text::{lower_of, lowercase, same_text};

verus! {

/// The palette colour named by an already lower-cased hex code or colour name.
pub open spec fn color_of(s: Seq<char>) -> Color {
    if s == "#ff0000"@ || s == "red"@ {
        Color::Red
    } else if s == "#00ff00"@ || s == "green"@ {
        Color::Green
    } else if s == "#0000ff"@ || s == "blue"@ {
        Color::Blue
    } else if s == "#ffff00"@ || s == "yellow"@ {
        Color::Yellow
    } else if s == "#800080"@ || s == "purple"@ {
        Color::Purple
    } else if s == "#ffa500"@ || s == "orange"@ {
        Color::Orange
    } else if s == "#a52a2a"@ || s == "brown"@ {
        Color::Brown
    } else if s == "#ffc0cb"@ || s == "pink"@ {
        Color::Pink
    } else if s == "#808080"@ || s == "gray"@ {
        Color::Gray
    } else {
        Color::Black
    }
}

/// Palette colour for a lower-cased colour string.
pub fn color_of_folded(s: &str) -> (r: Color)
    ensures
        r == color_of(s@),
{
    if same_text(s, "#ff0000") || same_text(s, "red") {
        Color::Red
    } else if same_text(s, "#00ff00") || same_text(s, "green") {
        Color::Green
    } else if same_text(s, "#0000ff") || same_text(s, "blue") {
        Color::Blue
    } else if same_text(s, "#ffff00") || same_text(s, "yellow") {
        Color::Yellow
    } else if same_text(s, "#800080") || same_text(s, "purple") {
        Color::Purple
    } else if same_text(s, "#ffa500") || same_text(s, "orange") {
        Color::Orange
    } else if same_text(s, "#a52a2a") || same_text(s, "brown") {
        Color::Brown
    } else if same_text(s, "#ffc0cb") || same_text(s, "pink") {
        Color::Pink
    } else if same_text(s, "#808080") || same_text(s, "gray") {
        Color::Gray
    } else {
        Color::Black
    }
}

/// Palette colour for a client colour string, compared without regard to case;
/// anything unknown is black.
pub fn convert_color(color_str: &str) -> (r: Color)
    ensures
        r == color_of(lower_of(color_str@)),
{
    let folded = lowercase(color_str);
    color_of_folded(folded.as_str())
}

/// Brush category of a pixel size: 2 is small, 8 is large, anything else medium.
pub open spec fn brush_size_of(size: u32) -> BrushSize {
    if size == 2 {
        BrushSize::Small
    } else if size == 8 {
        BrushSize::Large
    } else {
        BrushSize::Medium
    }
}

/// Brush category of a client's numeric brush size.
pub fn convert_brush_size(size: u32) -> (r: BrushSize)
    ensures
        r == brush_size_of(size),
{
    match size {
        2 => BrushSize::Small,
        8 => BrushSize::Large,
        _ => BrushSize::Medium,
    }
}

} // verus!
