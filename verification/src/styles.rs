//! Sizes that every chart is drawn with.

use vstd::prelude::*;

verus! {

/// Pixel sizes of the strokes, labels and margins of a chart.
#[derive(Clone, Copy, Debug, PartialEq, Eq)]
pub struct ChartStyle {
    pub line_width: u32,
    pub font_size: u32,
    pub margin: u32,
    pub label_area_size: u32,
}

impl Default for ChartStyle {
    fn default() -> (style: Self)
        ensures
            style.line_width == 2,
            style.font_size == 15,
            style.margin == 10,
            style.label_area_size == 50,
    {
        ChartStyle { line_width: 2, font_size: 15, margin: 10, label_area_size: 50 }
    }
}

} // verus!
