//! The parts of SVG output that need no geometry: escaping user text,
//! grouping a layer, the table of don't-care hatch patterns and the colour
//! behind each row.

use vstd::prelude::*;
use crate::chars::{chars_of, push_char, push_decimal, push_str, spec_decimal_digits};
use crate::color::Color;
use crate::arrow::LineDashStyle;
use crate::line::{Line, LineContent, SignalLevel, Transition, TransitionKind, WaveformElement};
use crate::style::ChartStyle;

verus! {

/// What `c` is written as in SVG text or in an attribute value: `<`, `>`,
/// `&`, `"` and `'` as entities, any other character as itself.
pub open spec fn spec_escape_char(c: char) -> Seq<char> {
    if c == '<' {
        seq!['&', 'l', 't', ';']
    } else if c == '>' {
        seq!['&', 'g', 't', ';']
    } else if c == '&' {
        seq!['&', 'a', 'm', 'p', ';']
    } else if c == '"' {
        seq!['&', 'q', 'u', 'o', 't', ';']
    } else if c == '\'' {
        seq!['&', 'a', 'p', 'o', 's', ';']
    } else {
        seq![c]
    }
}

/// `s` with each character escaped.
pub open spec fn spec_escaped(s: Seq<char>) -> Seq<char>
    decreases s.len(),
{
    if s.len() == 0 {
        Seq::empty()
    } else {
        spec_escaped(s.drop_last()) + spec_escape_char(s.last())
    }
}

fn push_escaped_char(out: &mut String, c: char)
    ensures
        final(out)@ == old(out)@ + spec_escape_char(c),
{
    let ghost start = out@;
    if c == '<' {
        push_char(out, '&');
        push_char(out, 'l');
        push_char(out, 't');
        push_char(out, ';');
    } else if c == '>' {
        push_char(out, '&');
        push_char(out, 'g');
        push_char(out, 't');
        push_char(out, ';');
    } else if c == '&' {
        push_char(out, '&');
        push_char(out, 'a');
        push_char(out, 'm');
        push_char(out, 'p');
        push_char(out, ';');
    } else if c == '"' {
        push_char(out, '&');
        push_char(out, 'q');
        push_char(out, 'u');
        push_char(out, 'o');
        push_char(out, 't');
        push_char(out, ';');
    } else if c == '\'' {
        push_char(out, '&');
        push_char(out, 'a');
        push_char(out, 'p');
        push_char(out, 'o');
        push_char(out, 's');
        push_char(out, ';');
    } else {
        push_char(out, c);
    }
    assert(out@ =~= start + spec_escape_char(c));
}

/// Appends `value` to `out`, escaped for SVG.
pub fn push_escaped(out: &mut String, value: &str)
    ensures
        final(out)@ == old(out)@ + spec_escaped(value@),
{
    let chars = chars_of(value);
    let mut i: usize = 0;
    while i < chars.len()
        invariant
            i <= chars@.len(),
            chars@ == value@,
            out@ == old(out)@ + spec_escaped(chars@.subrange(0, i as int)),
        decreases chars.len() - i,
    {
        let ghost before = out@;
        push_escaped_char(out, chars[i]);
        assert(chars@.subrange(0, i + 1).drop_last() =~= chars@.subrange(0, i as int));
        assert(out@ =~= old(out)@ + spec_escaped(chars@.subrange(0, i + 1)));
        i = i + 1;
    }
    assert(chars@.subrange(0, chars@.len() as int) =~= chars@);
}

/// The opening tag `<g class="class">` of a layer.
pub open spec fn spec_layer_open(class: Seq<char>) -> Seq<char> {
    seq!['<', 'g', ' ', 'c', 'l', 'a', 's', 's', '=', '"'] + class + seq!['"', '>']
}

/// Appends the layer `class` holding the already written `body`, as
/// `<g class="class">body</g>`; an empty layer is left out.
pub fn push_layer(out: &mut String, class: &str, body: &str)
    ensures
        body@.len() == 0 ==> final(out)@ == old(out)@,
        body@.len() > 0 ==> final(out)@ == old(out)@ + spec_layer_open(class@) + body@ + seq!['<', '/', 'g', '>'],
{
    let body_chars = chars_of(body);
    if body_chars.len() == 0 {
        return;
    }
    let ghost start = out@;
    push_char(out, '<');
    push_char(out, 'g');
    push_char(out, ' ');
    push_char(out, 'c');
    push_char(out, 'l');
    push_char(out, 'a');
    push_char(out, 's');
    push_char(out, 's');
    push_char(out, '=');
    push_char(out, '"');
    push_str(out, class);
    push_char(out, '"');
    push_char(out, '>');
    push_str(out, body);
    push_char(out, '<');
    push_char(out, '/');
    push_char(out, 'g');
    push_char(out, '>');
    assert(out@ =~= start + spec_layer_open(class@) + body@ + seq!['<', '/', 'g', '>']);
}

/// The hatch patterns of a chart's don't-care fills, one per distinct
/// colour, in the order the colours were first met: the pattern at index
/// `k` has the id `k + 1`.
pub struct DontcareHatchPatternTable {
    pub colors: Vec<Color>,
}

impl DontcareHatchPatternTable {
    /// No colour occurs twice.
    pub open spec fn wf(&self) -> bool {
        forall|i: int, j: int| 0 <= i < j < self.colors@.len() ==> self.colors@[i] != self.colors@[j]
    }

    pub fn new() -> (t: DontcareHatchPatternTable)
        ensures
            t.wf(),
            t.colors@.len() == 0,
    {
        DontcareHatchPatternTable { colors: Vec::new() }
    }

    /// The id of the pattern for `color`: the existing one when the colour
    /// was met before, else a new pattern with the next id.
    pub fn insert_color(&mut self, color: Color) -> (id: u32)
        requires
            old(self).wf(),
            old(self).colors@.len() < u32::MAX,
        ensures
            final(self).wf(),
            old(self).colors@.contains(color) ==> {
                &&& final(self).colors@ == old(self).colors@
                &&& 1 <= id <= old(self).colors@.len()
                &&& old(self).colors@[id - 1] == color
            },
            !old(self).colors@.contains(color) ==> {
                &&& final(self).colors@ == old(self).colors@.push(color)
                &&& id == old(self).colors@.len() + 1
            },
    {
        let mut k: usize = 0;
        while k < self.colors.len()
            invariant
                k <= self.colors@.len(),
                self.colors@ == old(self).colors@,
                old(self).wf(),
                old(self).colors@.len() < u32::MAX,
                forall|j: int| 0 <= j < k ==> self.colors@[j] != color,
            decreases self.colors.len() - k,
        {
            if self.colors[k] == color {
                return (k + 1) as u32;
            }
            k = k + 1;
        }
        let id = (self.colors.len() + 1) as u32;
        self.colors.push(color);
        id
    }

    /// Whether no pattern is needed.
    pub fn is_empty(&self) -> (b: bool)
        ensures
            b == (self.colors@.len() == 0),
    {
        self.colors.len() == 0
    }
}

/// The SVG id of pattern `id`: `dontcare-hatch-` and the number.
pub open spec fn spec_pattern_id_text(id: u32) -> Seq<char> {
    seq!['d', 'o', 'n', 't', 'c', 'a', 'r', 'e', '-', 'h', 'a', 't', 'c', 'h', '-'] + spec_decimal_digits(id as nat)
}

/// Writes the SVG id of pattern `id`.
pub fn pattern_id_text(id: u32) -> (s: String)
    ensures
        s@ == spec_pattern_id_text(id),
{
    let mut s = String::new();
    let ghost start = s@;
    push_char(&mut s, 'd');
    push_char(&mut s, 'o');
    push_char(&mut s, 'n');
    push_char(&mut s, 't');
    push_char(&mut s, 'c');
    push_char(&mut s, 'a');
    push_char(&mut s, 'r');
    push_char(&mut s, 'e');
    push_char(&mut s, '-');
    push_char(&mut s, 'h');
    push_char(&mut s, 'a');
    push_char(&mut s, 't');
    push_char(&mut s, 'c');
    push_char(&mut s, 'h');
    push_char(&mut s, '-');
    push_decimal(&mut s, id as u64);
    assert(s@ =~= start + spec_pattern_id_text(id));
    s
}

/// How many of `lines[..k]` are signal rows.
pub open spec fn spec_signal_count(lines: Seq<Line>, k: int) -> int
    decreases k,
{
    if k <= 0 {
        0
    } else {
        spec_signal_count(lines, k - 1) + if lines[k - 1].content is Signal { 1int } else { 0int }
    }
}

/// The colour behind a row, `signal_index` being the number of signal
/// rows before it: its `@bg` colour when it has one, else for a signal
/// row the stripe colour of its index, and for a title or skip row none.
pub open spec fn spec_row_color(line: Line, style: ChartStyle, signal_index: int) -> Color {
    match line.background {
        Some(c) => c,
        None => if line.content is Signal {
            if signal_index % 2 == 0 { style.background.bgcolor0 } else { style.background.bgcolor1 }
        } else {
            Color { r: 0, g: 0, b: 0, a: 0 }
        },
    }
}

/// The colour behind `line`; a signal row moves `signal_index` on by one,
/// whether or not it has its own `@bg`.
pub fn resolve_row_color(line: &Line, style: &ChartStyle, signal_index: &mut u32) -> (c: Color)
    requires
        *old(signal_index) < u32::MAX,
    ensures
        c == spec_row_color(*line, *style, *old(signal_index) as int),
        *final(signal_index) == *old(signal_index) + if line.content is Signal { 1int } else { 0int },
{
    let is_signal = match &line.content {
        LineContent::Signal(_) => true,
        _ => false,
    };
    let color = match line.background {
        Some(local) => local,
        None => if is_signal {
            style.background.stripe_for_index(*signal_index)
        } else {
            Color::none()
        },
    };
    if is_signal {
        *signal_index = *signal_index + 1;
    }
    color
}

/// The colour behind each row, in order (a fully transparent colour where
/// nothing is drawn).
pub fn row_background_colors(lines: &Vec<Line>, style: &ChartStyle) -> (v: Vec<Color>)
    requires
        lines@.len() < u32::MAX,
    ensures
        v@.len() == lines@.len(),
        forall|k: int| 0 <= k < lines@.len() ==> #[trigger] v@[k] == spec_row_color(lines@[k], *style, spec_signal_count(lines@, k)),
{
    let mut v: Vec<Color> = Vec::new();
    let mut signal_index: u32 = 0;
    let mut k: usize = 0;
    while k < lines.len()
        invariant
            k <= lines@.len() < u32::MAX,
            v@.len() == k,
            signal_index as int == spec_signal_count(lines@, k as int),
            signal_index <= k,
            forall|j: int| 0 <= j < k ==> #[trigger] v@[j] == spec_row_color(lines@[j], *style, spec_signal_count(lines@, j)),
        decreases lines.len() - k,
    {
        let c = resolve_row_color(&lines[k], style, &mut signal_index);
        v.push(c);
        k = k + 1;
    }
    v
}

/// The `stroke-dasharray` of an arrow line: `6 3` dashed, `1 2` dotted,
/// none for a solid line.
pub fn format_dash_value(line: LineDashStyle) -> (r: Option<&'static str>)
    ensures
        line == LineDashStyle::Solid ==> r is None,
        line == LineDashStyle::Dashed ==> (r matches Some(t) && t@ == seq!['6', ' ', '3']),
        line == LineDashStyle::Dotted ==> (r matches Some(t) && t@ == seq!['1', ' ', '2']),
{
    proof {
        reveal_strlit("6 3");
        reveal_strlit("1 2");
    }
    match line {
        LineDashStyle::Solid => None,
        LineDashStyle::Dashed => Some("6 3"),
        LineDashStyle::Dotted => Some("1 2"),
    }
}

/// Which single-rail don't-care fill a level is, and so where its inner
/// line is drawn.
#[derive(Debug, Clone, Copy, PartialEq, Eq, Structural)]
pub enum DcSingleKind {
    Low,
    High,
    HiZ,
}

/// The single-rail don't-care kind of `level`, if it is one (a don't-care
/// along a bus has a fill of its own).
pub fn dc_single_kind(level: SignalLevel) -> (r: Option<DcSingleKind>)
    ensures
        r == match level {
            SignalLevel::DontCareAlongLow => Some(DcSingleKind::Low),
            SignalLevel::DontCareAlongHigh => Some(DcSingleKind::High),
            SignalLevel::DontCareAlongHiZ => Some(DcSingleKind::HiZ),
            _ => None::<DcSingleKind>,
        },
{
    match level {
        SignalLevel::DontCareAlongLow => Some(DcSingleKind::Low),
        SignalLevel::DontCareAlongHigh => Some(DcSingleKind::High),
        SignalLevel::DontCareAlongHiZ => Some(DcSingleKind::HiZ),
        _ => None,
    }
}

/// How a single-rail don't-care fill meets its neighbour on one side: a
/// vertical edge, a full slant (from a low or high level), or a half
/// slant (from high impedance).
#[derive(Debug, Clone, Copy, PartialEq, Eq, Structural)]
pub enum SingleDcAdjacency {
    Vertical,
    FullSlant,
    HalfSlant,
}

/// The side shape given by a transition next to the fill: `take_target`
/// when the fill comes before it (its target is the neighbour), else its
/// source is. A bus crossing gives a vertical edge.
pub open spec fn spec_adjacency_from_transition(kind: TransitionKind, source: SignalLevel, target: SignalLevel, take_target: bool) -> SingleDcAdjacency {
    let other = if take_target { target } else { source };
    if kind == TransitionKind::BusCross {
        SingleDcAdjacency::Vertical
    } else if other == SignalLevel::HiZ {
        SingleDcAdjacency::HalfSlant
    } else {
        SingleDcAdjacency::FullSlant
    }
}

pub fn adjacency_from_transition(transition: &Transition, take_target: bool) -> (r: SingleDcAdjacency)
    ensures
        r == spec_adjacency_from_transition(transition.kind, transition.source, transition.target, take_target),
{
    let other = if take_target { transition.target } else { transition.source };
    match transition.kind {
        TransitionKind::SingleEdge | TransitionKind::BusOpen | TransitionKind::BusClose => {
            if other == SignalLevel::HiZ {
                SingleDcAdjacency::HalfSlant
            } else {
                SingleDcAdjacency::FullSlant
            }
        },
        TransitionKind::BusCross => SingleDcAdjacency::Vertical,
    }
}

/// Elements that draw nothing on the waveform line and are looked past:
/// anchors, texts, highlight marks and guides.
pub open spec fn spec_looked_past(e: WaveformElement) -> bool {
    e is Anchor || e is Text || e is HighlightStart || e is HighlightEnd || e is Guide
}

/// What an element that is not looked past gives as a side: a transition
/// its slant, anything else a vertical edge.
pub open spec fn spec_side_of(e: WaveformElement, take_target: bool) -> SingleDcAdjacency {
    match e {
        WaveformElement::Transition(t) => spec_adjacency_from_transition(t.kind, t.source, t.target, take_target),
        _ => SingleDcAdjacency::Vertical,
    }
}

/// The left side of a fill, looking back from before `es[k]`.
pub open spec fn spec_left_side(es: Seq<WaveformElement>, k: int) -> SingleDcAdjacency
    decreases k,
{
    if k <= 0 {
        SingleDcAdjacency::Vertical
    } else if spec_looked_past(es[k - 1]) {
        spec_left_side(es, k - 1)
    } else {
        spec_side_of(es[k - 1], false)
    }
}

/// The right side of a fill, looking on from after `es[k]`.
pub open spec fn spec_right_side(es: Seq<WaveformElement>, k: int) -> SingleDcAdjacency
    decreases es.len() - k,
{
    if k + 1 >= es.len() {
        SingleDcAdjacency::Vertical
    } else if spec_looked_past(es[k + 1]) {
        spec_right_side(es, k + 1)
    } else {
        spec_side_of(es[k + 1], true)
    }
}

fn side_of(e: &WaveformElement, take_target: bool) -> (r: Option<SingleDcAdjacency>)
    ensures
        spec_looked_past(*e) ==> r is None,
        !spec_looked_past(*e) ==> r == Some(spec_side_of(*e, take_target)),
{
    match e {
        WaveformElement::Transition(transition) => Some(adjacency_from_transition(transition, take_target)),
        WaveformElement::Anchor(_)
        | WaveformElement::Text(_)
        | WaveformElement::HighlightStart
        | WaveformElement::HighlightEnd
        | WaveformElement::Guide => None,
        _ => Some(SingleDcAdjacency::Vertical),
    }
}

/// The left side of the don't-care fill at `elements[index]`: the first
/// element before it that is not looked past decides.
pub fn adjacency_from_prev(elements: &Vec<WaveformElement>, index: usize) -> (r: SingleDcAdjacency)
    requires
        index <= elements@.len(),
    ensures
        r == spec_left_side(elements@, index as int),
{
    let mut scan = index;
    while scan > 0
        invariant
            scan <= index <= elements@.len(),
            spec_left_side(elements@, index as int) == spec_left_side(elements@, scan as int),
        decreases scan,
    {
        scan = scan - 1;
        match side_of(&elements[scan], false) {
            Some(a) => return a,
            None => {},
        }
    }
    SingleDcAdjacency::Vertical
}

/// The right side of the don't-care fill at `elements[index]`: the first
/// element after it that is not looked past decides.
pub fn adjacency_from_next(elements: &Vec<WaveformElement>, index: usize) -> (r: SingleDcAdjacency)
    requires
        index < elements@.len(),
    ensures
        r == spec_right_side(elements@, index as int),
{
    let mut scan = index;
    while scan < elements.len() - 1
        invariant
            index <= scan < elements@.len(),
            spec_right_side(elements@, index as int) == spec_right_side(elements@, scan as int),
        decreases elements@.len() - scan,
    {
        scan = scan + 1;
        match side_of(&elements[scan], true) {
            Some(a) => return a,
            None => {},
        }
    }
    SingleDcAdjacency::Vertical
}

} // verus!
