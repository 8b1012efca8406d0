//! The parsed chart document.

use vstd::prelude::*;
use crate::anchor::AnchorRegistry;
use crate::arrow::Arrow;
use crate::line::Line;
use crate::style::ChartStyle;
use crate::text::UserText;
use crate::units::Point;

verus! {

/// A free-standing text (`% x y text`).
#[derive(Debug, Clone, PartialEq, Eq)]
pub struct TextOverlay {
    pub at: Point,
    pub text: UserText,
}

/// Overlays, arrows and the anchors they refer to.
#[derive(Debug, Clone, PartialEq, Eq)]
pub struct Annotations {
    pub overlays: Vec<TextOverlay>,
    pub arrows: Vec<Arrow>,
    pub anchors: AnchorRegistry,
}

/// The original TCML text.
#[derive(Debug, Clone, PartialEq, Eq)]
pub struct TcmlSource {
    pub text: String,
}

/// A complete parsed chart.
#[derive(Debug, Clone, PartialEq, Eq)]
pub struct ChartDocument {
    pub style: ChartStyle,
    pub lines: Vec<Line>,
    pub annotations: Annotations,
    pub source: TcmlSource,
}

} // verus!
