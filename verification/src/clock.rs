//! `@clock(...)` specifications.

use vstd::prelude::*;
use crate::chars::{span_eq_ignore_case, spec_eq_ignore_case};
use crate::color::Color;
use crate::units::{Px, Ratio};

verus! {

/// Which clock edges carry a mark.
#[derive(Debug, Clone, Copy, PartialEq, Eq, Structural)]
pub enum ClockEdge {
    NoEdge,
    Pos,
    Neg,
    Both,
}

/// The edge a keyword names: `pos`, `neg`, `both` or `none`, in any case.
pub open spec fn spec_clock_edge_word(w: Seq<char>) -> Option<ClockEdge> {
    if spec_eq_ignore_case(w, seq!['p', 'o', 's']) {
        Some(ClockEdge::Pos)
    } else if spec_eq_ignore_case(w, seq!['n', 'e', 'g']) {
        Some(ClockEdge::Neg)
    } else if spec_eq_ignore_case(w, seq!['b', 'o', 't', 'h']) {
        Some(ClockEdge::Both)
    } else if spec_eq_ignore_case(w, seq!['n', 'o', 'n', 'e']) {
        Some(ClockEdge::NoEdge)
    } else {
        None
    }
}

impl ClockEdge {
    /// Reads `none` / `pos` / `neg` / `both` (case-insensitive).
    pub fn from_keyword(chars: &[char], start: usize, end: usize) -> (r: Option<ClockEdge>)
        requires
            start <= end <= chars@.len(),
        ensures
            r == spec_clock_edge_word(chars@.subrange(start as int, end as int)),
    {
        assert(['p', 'o', 's']@ =~= seq!['p', 'o', 's']);
        assert(['n', 'e', 'g']@ =~= seq!['n', 'e', 'g']);
        assert(['b', 'o', 't', 'h']@ =~= seq!['b', 'o', 't', 'h']);
        assert(['n', 'o', 'n', 'e']@ =~= seq!['n', 'o', 'n', 'e']);
        if span_eq_ignore_case(chars, start, end, &['p', 'o', 's']) {
            Some(ClockEdge::Pos)
        } else if span_eq_ignore_case(chars, start, end, &['n', 'e', 'g']) {
            Some(ClockEdge::Neg)
        } else if span_eq_ignore_case(chars, start, end, &['b', 'o', 't', 'h']) {
            Some(ClockEdge::Both)
        } else if span_eq_ignore_case(chars, start, end, &['n', 'o', 'n', 'e']) {
            Some(ClockEdge::NoEdge)
        } else {
            None
        }
    }
}

/// The level a clock waveform starts with.
#[derive(Debug, Clone, Copy, PartialEq, Eq, Structural)]
pub enum ClockPhase {
    StartLow,
    StartHigh,
}

/// Units spent low and high in one clock period (both at least 1).
#[derive(Debug, Clone, Copy, PartialEq, Eq, Structural)]
pub struct ClockPulse {
    pub low: u32,
    pub high: u32,
}

/// Geometry and color of clock edge marks.
#[derive(Debug, Clone, Copy, PartialEq, Eq, Structural)]
pub struct ClockMarkStyle {
    /// Where the mark sits along the edge, from 0 to 1.
    pub position: Ratio,
    pub height: Px,
    pub width: Px,
    pub color: Color,
}

/// A complete `@clock(...)` specification.
#[derive(Debug, Clone, Copy, PartialEq, Eq, Structural)]
pub struct ClockSpec {
    pub edge: ClockEdge,
    pub pulse: ClockPulse,
    pub start: ClockPhase,
    pub mark_style: ClockMarkStyle,
}

impl ClockSpec {
    /// Whether the pulse widths are positive.
    pub open spec fn wf(&self) -> bool {
        self.pulse.low >= 1 && self.pulse.high >= 1
    }
}

} // verus!
