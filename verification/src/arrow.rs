//! Arrows between anchors (`@-> (from, to, ...)`).

use vstd::prelude::*;
use crate::anchor::{AnchorId, AnchorKey};
use crate::chars::{span_eq_ignore_case, spec_eq_ignore_case, spec_to_ascii_lower};
use crate::color::Color;
use crate::text::{FontSpec, UserText};
use crate::units::Px;

verus! {

/// One end of an arrow.
#[derive(Debug, Clone, PartialEq, Eq)]
pub enum ArrowEnd {
    Anchor(AnchorId),
}

/// The identity of the anchor an endpoint names.
pub open spec fn spec_end_key(e: ArrowEnd) -> AnchorKey {
    match e {
        ArrowEnd::Anchor(id) => id@,
    }
}

/// Which ends of an arrow carry a head.
#[derive(Debug, Clone, Copy, PartialEq, Eq, Structural)]
pub enum ArrowHead {
    EndOnly,
    StartOnly,
    BothEnds,
    NoHead,
}

/// The heads a keyword names: `end`, `start`, `both` or `none`, in any
/// case.
pub open spec fn spec_head_word(w: Seq<char>) -> Option<ArrowHead> {
    if spec_eq_ignore_case(w, seq!['e', 'n', 'd']) {
        Some(ArrowHead::EndOnly)
    } else if spec_eq_ignore_case(w, seq!['s', 't', 'a', 'r', 't']) {
        Some(ArrowHead::StartOnly)
    } else if spec_eq_ignore_case(w, seq!['b', 'o', 't', 'h']) {
        Some(ArrowHead::BothEnds)
    } else if spec_eq_ignore_case(w, seq!['n', 'o', 'n', 'e']) {
        Some(ArrowHead::NoHead)
    } else {
        None
    }
}

/// Whether an arrow with heads `h` has a head where it ends.
pub open spec fn spec_head_at_end(h: ArrowHead) -> bool {
    h is EndOnly || h is BothEnds
}

/// Whether an arrow with heads `h` has a head where it starts.
pub open spec fn spec_head_at_start(h: ArrowHead) -> bool {
    h is StartOnly || h is BothEnds
}

/// A head keyword names the ends that get a head: `end` the end, `start`
/// the start, `both` both, and `none` neither; each is read in any case.
pub proof fn lemma_head_word_names_its_ends(w: Seq<char>)
    ensures
        spec_eq_ignore_case(w, seq!['e', 'n', 'd']) || spec_eq_ignore_case(w, seq!['s', 't', 'a', 'r', 't'])
            || spec_eq_ignore_case(w, seq!['b', 'o', 't', 'h']) || spec_eq_ignore_case(w, seq!['n', 'o', 'n', 'e'])
            <==> spec_head_word(w) is Some,
        spec_head_word(w) matches Some(h) ==> {
            &&& spec_head_at_end(h) <==> (spec_eq_ignore_case(w, seq!['e', 'n', 'd']) || spec_eq_ignore_case(w, seq!['b', 'o', 't', 'h']))
            &&& spec_head_at_start(h) <==> (spec_eq_ignore_case(w, seq!['s', 't', 'a', 'r', 't'])
                || spec_eq_ignore_case(w, seq!['b', 'o', 't', 'h']))
        },
{
    if w.len() == 4 && spec_eq_ignore_case(w, seq!['b', 'o', 't', 'h']) {
        assert(spec_to_ascii_lower(w[0]) == 'b');
        assert(!spec_eq_ignore_case(w, seq!['n', 'o', 'n', 'e'])) by {
            assert(spec_to_ascii_lower(seq!['n', 'o', 'n', 'e'][0]) == 'n');
        }
    }
    if w.len() == 4 && spec_eq_ignore_case(w, seq!['n', 'o', 'n', 'e']) {
        assert(spec_to_ascii_lower(w[0]) == 'n');
        assert(!spec_eq_ignore_case(w, seq!['b', 'o', 't', 'h'])) by {
            assert(spec_to_ascii_lower(seq!['b', 'o', 't', 'h'][0]) == 'b');
        }
    }
}

impl ArrowHead {
    /// Reads `end` / `start` / `both` / `none` (case-insensitive).
    pub fn from_keyword(chars: &[char], start: usize, end: usize) -> (r: Option<ArrowHead>)
        requires
            start <= end <= chars@.len(),
        ensures
            r == spec_head_word(chars@.subrange(start as int, end as int)),
    {
        assert(['e', 'n', 'd']@ =~= seq!['e', 'n', 'd']);
        assert(['s', 't', 'a', 'r', 't']@ =~= seq!['s', 't', 'a', 'r', 't']);
        assert(['b', 'o', 't', 'h']@ =~= seq!['b', 'o', 't', 'h']);
        assert(['n', 'o', 'n', 'e']@ =~= seq!['n', 'o', 'n', 'e']);
        if span_eq_ignore_case(chars, start, end, &['e', 'n', 'd']) {
            Some(ArrowHead::EndOnly)
        } else if span_eq_ignore_case(chars, start, end, &['s', 't', 'a', 'r', 't']) {
            Some(ArrowHead::StartOnly)
        } else if span_eq_ignore_case(chars, start, end, &['b', 'o', 't', 'h']) {
            Some(ArrowHead::BothEnds)
        } else if span_eq_ignore_case(chars, start, end, &['n', 'o', 'n', 'e']) {
            Some(ArrowHead::NoHead)
        } else {
            None
        }
    }
}

/// Dash pattern of an arrow line.
#[derive(Debug, Clone, Copy, PartialEq, Eq, Structural)]
pub enum LineDashStyle {
    Solid,
    Dashed,
    Dotted,
}

/// The dash pattern a keyword names: `solid`, `dashed` or `dotted`, in
/// any case.
pub open spec fn spec_dash_word(w: Seq<char>) -> Option<LineDashStyle> {
    if spec_eq_ignore_case(w, seq!['s', 'o', 'l', 'i', 'd']) {
        Some(LineDashStyle::Solid)
    } else if spec_eq_ignore_case(w, seq!['d', 'a', 's', 'h', 'e', 'd']) {
        Some(LineDashStyle::Dashed)
    } else if spec_eq_ignore_case(w, seq!['d', 'o', 't', 't', 'e', 'd']) {
        Some(LineDashStyle::Dotted)
    } else {
        None
    }
}

impl LineDashStyle {
    /// Reads `solid` / `dashed` / `dotted` (case-insensitive).
    pub fn from_keyword(chars: &[char], start: usize, end: usize) -> (r: Option<LineDashStyle>)
        requires
            start <= end <= chars@.len(),
        ensures
            r == spec_dash_word(chars@.subrange(start as int, end as int)),
    {
        assert(['s', 'o', 'l', 'i', 'd']@ =~= seq!['s', 'o', 'l', 'i', 'd']);
        assert(['d', 'a', 's', 'h', 'e', 'd']@ =~= seq!['d', 'a', 's', 'h', 'e', 'd']);
        assert(['d', 'o', 't', 't', 'e', 'd']@ =~= seq!['d', 'o', 't', 't', 'e', 'd']);
        if span_eq_ignore_case(chars, start, end, &['s', 'o', 'l', 'i', 'd']) {
            Some(LineDashStyle::Solid)
        } else if span_eq_ignore_case(chars, start, end, &['d', 'a', 's', 'h', 'e', 'd']) {
            Some(LineDashStyle::Dashed)
        } else if span_eq_ignore_case(chars, start, end, &['d', 'o', 't', 't', 'e', 'd']) {
            Some(LineDashStyle::Dotted)
        } else {
            None
        }
    }
}

/// Stroke style of an arrow.
#[derive(Debug, Clone, Copy, PartialEq, Eq, Structural)]
pub struct ArrowStyle {
    pub color: Color,
    pub width: Px,
    pub line: LineDashStyle,
    pub head: ArrowHead,
}

/// A resolved arrow: both endpoints name declared anchors.
#[derive(Debug, Clone, PartialEq, Eq)]
pub struct Arrow {
    pub from: ArrowEnd,
    pub to: ArrowEnd,
    pub style: ArrowStyle,
    pub label: Option<UserText>,
    /// The font in force where the arrow was declared, for its label.
    pub label_font: FontSpec,
}

} // verus!
