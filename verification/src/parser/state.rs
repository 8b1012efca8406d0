//! The line-by-line parser state and the final assembly of the document.

use vstd::prelude::*;
use crate::anchor::{AnchorId, AnchorKey, AnchorRegistry, ResolvedAnchor};
use crate::arrow::{Arrow, ArrowEnd, spec_end_key};
use crate::chars::{
    clamp_u32, is_space_or_tab, is_whitespace, spec_is_whitespace, push_char, push_decimal, push_str, span_eq,
    span_eq_ignore_case, spec_eq_ignore_case, spec_is_space_or_tab, spec_skip_space_tab, spec_skip_space_tab_back, spec_trim, string_of, sub_vec, trim_space_tab, trim_span, spec_decimal_digits,
};
use crate::clock::ClockSpec;
use crate::color::Color;
use crate::document::{Annotations, ChartDocument, TcmlSource, TextOverlay};
use crate::errors::{NameError, ParseError, ParseErrorKind, SourceLocation, spec_clamp_u32, spec_pos_ok, spec_shifted};
use crate::line::{
    spec_element_models,    Line, LineContent, RulerContribution, SignalDecorations, SignalRow, SkipRow, TitleRow, Waveform,
    lemma_clock_extension_keeps_pairing, lemma_rows_paired_push, spec_row_paired, spec_rows_paired,
    spec_clock_expanded, spec_transition_kinds_ok, spec_transitions_consistent, spec_units_total,
};
use crate::number::{Number, parse_number, parse_wide_number, spec_number, spec_wide_number};
use crate::style::{
    ChartStyle, HorizontalAlign, LabelStyle, LayoutParams, spec_half_step, SignalRowStyle, SignalStyle, SvgAttrList, TitleStyle, spec_pair_models, spec_scaled, spec_svg_pairs,
};
use crate::text::{FontFamily, SignalName, UserText, spec_is_first_forbidden, spec_is_forbidden, spec_text_error};
use crate::units::{Length, Point, Px, Ratio, spec_clamp_i64};
use super::arrow::{PendingArrow, parse_arrow, spec_arrow_accepted, spec_arrow_error, spec_arrow_head_ok, spec_arrow_read};
use super::attr::{first_index, lemma_first_index, spec_first_index, spec_normalise, spec_strip_parens, strip_parens};
use super::clock::{MarkOverrides, parse_clock_spec, spec_clock_from_attrs, spec_clock_list, spec_no_clock_attrs};
use super::directive::{Directive, ParamKind, owned, parse_directive, spec_color_value, spec_directive, spec_param_kind, spec_trimmed, spec_value_error_at, spec_value_refusal};
use super::source::Source;
use super::text_quote::{
    collect_quoted, spec_comment_cut, spec_quoted_raw, spec_unescape, strip_inline_comment,
};
use super::waveform::{PendingAnchor, parse_waveform, spec_pending_models, spec_waveform_anchors, spec_waveform_elements, spec_waveform_error};

verus! {

/// 1-based line number of source line `index` (saturating).
fn line_number(index: usize) -> (n: u32)
    requires
        index < usize::MAX,
    ensures
        n as int == if index + 1 <= u32::MAX { index + 1 } else { u32::MAX as int },
        n >= 1,
{
    clamp_u32(index + 1)
}

/// 1-based column of the character `offset` characters into a line,
/// saturating.
pub open spec fn spec_column_of(offset: int) -> u32 {
    if spec_clamp_u32(offset) + 1 <= u32::MAX { (spec_clamp_u32(offset) + 1) as u32 } else { u32::MAX }
}

/// What reading the signal line `name levels` at `s[la..lb]` does: it
/// succeeds exactly when the name (up to the first space or tab) is not
/// empty and holds no forbidden character, the step is wider than the
/// slant, and the levels are a valid waveform; it then appends a signal
/// row with that name and that waveform.
pub open spec fn spec_signal_line(
    old: Parser,
    new: Parser,
    ok: bool,
    s: Seq<char>,
    la: int,
    lb: int,
    location: SourceLocation,
    raw_start: int,
) -> bool {
    let sep = spec_first_space_tab(s, la, lb);
    let l0 = spec_skip_space_tab(s, sep, lb);
    let l1 = spec_skip_space_tab_back(s, l0, lb);
    let lloc = if l0 == l1 { location } else { SourceLocation { line: location.line, column: spec_column_of(l0 - raw_start) } };
    &&& ok <==> {
        &&& la < sep
        &&& forall|k: int| la <= k < sep ==> !spec_is_forbidden(#[trigger] s[k])
        &&& old.style.layout.step.micros > old.style.layout.slant.micros
        &&& spec_waveform_elements(s, l0, l1, lloc) is Some
    }
    &&& ok ==> spec_signal_pushed(old, new, s.subrange(la, sep), s, l0, l1, lloc)
    &&& !ok ==> new == old
}

/// The ruler lines a row of `units` units at `step` contributes: one at
/// every unit boundary, in `color`, when the ruler is on.
pub open spec fn spec_ruler_line(on: bool, step: Px, units: int, color: Color) -> Seq<RulerContribution> {
    if on {
        Seq::new((units + 1) as nat, |i: int| RulerContribution { x: Px { micros: spec_clamp_i64(step.micros * i) as i64 }, color })
    } else {
        Seq::empty()
    }
}

/// `t` saturated to the `u32` range.
pub open spec fn spec_sat_u32(t: int) -> int {
    if t <= u32::MAX { t } else { u32::MAX as int }
}

/// `st` is the style a signal row takes from the chart style `cs`: its
/// signal and name styles as they are.
pub open spec fn spec_row_style_of(st: SignalRowStyle, cs: ChartStyle) -> bool {
    &&& st.signal.color == cs.signal.color
    &&& st.signal.width == cs.signal.width
    &&& st.signal.guide == cs.signal.guide
    &&& st.signal.dontcare_color == cs.signal.dontcare_color
    &&& spec_pair_models(st.signal.highlight.pairs@) == spec_pair_models(cs.signal.highlight.pairs@)
    &&& st.label.font.size == cs.label.font.size
    &&& st.label.font.family@ == cs.label.font.family@
    &&& st.label.align == cs.label.align
    &&& st.label.color == cs.label.color
    &&& st.label.padding == cs.label.padding
    &&& st.label.overline_gap == cs.label.overline_gap
    &&& st.label.overline_thickness == cs.label.overline_thickness
}

/// `new` is `old` with one more signal row named `name`, whose waveform
/// is read from `s[ls..le]` (first character at `location`): it took the
/// staged background, clock and overline and the current layout, and the
/// waveform's anchors were staged for that row; nothing else changed.
pub open spec fn spec_signal_pushed(old: Parser, new: Parser, name: Seq<char>, s: Seq<char>, ls: int, le: int, location: SourceLocation) -> bool {
    let n = old.pending_anchors@.len();
    &&& spec_row_pushed(old, new)
    &&& new == (Parser {
        lines: new.lines,
        pending_anchors: new.pending_anchors,
        next_background: None,
        next_clock: None,
        next_overline: false,
        ..old
    })
    &&& n <= new.pending_anchors@.len()
    &&& new.pending_anchors@.subrange(0, n as int) == old.pending_anchors@
    &&& Some(spec_pending_models(new.pending_anchors@.subrange(n as int, new.pending_anchors@.len() as int)))
        == spec_waveform_anchors(s, ls, le, location)
    &&& forall|k: int| n <= k < new.pending_anchors@.len() ==> (#[trigger] new.pending_anchors@[k]).signal_index == old.lines@.len()
    &&& new.lines@.last().content matches LineContent::Signal(row) && {
        &&& row.name@ == name
        &&& Some(spec_element_models(row.waveform.elements@)) == spec_waveform_elements(s, ls, le, location)
        &&& row.decorations == (SignalDecorations { clock: old.next_clock, name_overline: old.next_overline })
        &&& row.layout_params == old.style.layout
        &&& row.edge_marks@.len() == 0
        &&& spec_row_style_of(row.style, old.style)
        &&& new.lines@.last().ruler_contributions@ == spec_ruler_line(old.ruler_on, old.style.layout.step,
            spec_sat_u32(spec_units_total(row.waveform.elements@)), old.ruler_color)
    }
}

/// What a signal line whose quoted name starts at `s[a..b]` (just after
/// the opening quote; the rest of line `index`) does: the name must be
/// closed, possibly on a later line, and be a valid name once unescaped;
/// the levels after it (up to a `//` comment) must read as a waveform
/// with the step wider than the slant; a signal row is then appended.
/// A refused line changes nothing.
pub open spec fn spec_quoted_signal(
    old: Parser,
    new: Parser,
    r: Result<usize, ParseError>,
    s: Seq<char>,
    lines: Seq<(usize, usize)>,
    index: int,
    a: int,
    b: int,
    location: SourceLocation,
) -> bool {
    &&& r is Err ==> new == old
    &&& match spec_quoted_raw(s, lines, index, a, b) {
        None => r matches Err(e) && e.kind == ParseErrorKind::UnclosedQuote && e.location == location,
        Some((raw, c, t, e)) => {
            let name = spec_unescape(raw);
            let w = spec_trim(s, t, spec_comment_cut(s, t, e, false));
            &&& r is Ok <==> {
                &&& name.len() > 0
                &&& forall|k: int| 0 <= k < name.len() ==> !spec_is_forbidden(#[trigger] name[k])
                &&& old.style.layout.step.micros > old.style.layout.slant.micros
                &&& spec_waveform_elements(s, w.0, w.1, location) is Some
            }
            &&& r is Ok ==> r == Ok::<usize, ParseError>(c as usize) && spec_signal_pushed(old, new, name, s, w.0, w.1, location)
            &&& r matches Err(err) ==> if name.len() == 0 || exists|k: int| 0 <= k < name.len() && spec_is_forbidden(#[trigger] name[k]) {
                spec_name_error(name, location, err)
            } else if old.style.layout.step.micros <= old.style.layout.slant.micros {
                err.kind == ParseErrorKind::InvalidStepSlant(old.style.layout.step, old.style.layout.slant) && err.location == location
                    && err.length == 1
            } else {
                spec_waveform_error(s, w.0, w.1, location, err)
            }
        },
    }
}

/// Why the signal name `name`, its first character at `loc`, is refused
/// with `e`: it is empty, or it holds a forbidden character (pointed at).
pub open spec fn spec_name_error(name: Seq<char>, loc: SourceLocation, e: ParseError) -> bool {
    if name.len() == 0 {
        e.kind == ParseErrorKind::InvalidName(NameError::Empty) && e.location == spec_shifted(loc, 0) && e.length == 0
    } else {
        exists|i: int| #[trigger] spec_is_first_forbidden(name, i)
            && e.kind == ParseErrorKind::InvalidName(NameError::ForbiddenControlChar { char_offset: spec_clamp_u32(i) })
            && e.location == spec_shifted(loc, spec_clamp_u32(i)) && e.length == 1
    }
}

/// Why the signal line `name levels` at `s[la..lb]` is refused with `e`:
/// an empty name, a forbidden character in the name (pointed at), a step
/// not wider than the slant (at the levels), or the levels' own fault.
pub open spec fn spec_signal_line_error(
    old: Parser,
    s: Seq<char>,
    la: int,
    lb: int,
    location: SourceLocation,
    raw_start: int,
    e: ParseError,
) -> bool {
    let sep = spec_first_space_tab(s, la, lb);
    let l0 = spec_skip_space_tab(s, sep, lb);
    let l1 = spec_skip_space_tab_back(s, l0, lb);
    let lloc = if l0 == l1 { location } else { SourceLocation { line: location.line, column: spec_column_of(l0 - raw_start) } };
    let nloc = spec_shifted(location, spec_clamp_u32(la - raw_start));
    let layout = old.style.layout;
    if la == sep {
        e.kind == ParseErrorKind::InvalidName(NameError::Empty) && e.location == spec_shifted(nloc, 0) && e.length == 0
    } else if exists|k: int| la <= k < sep && spec_is_forbidden(#[trigger] s[k]) {
        exists|i: int| #[trigger] spec_is_first_forbidden(s.subrange(la, sep), i)
            && e.kind == ParseErrorKind::InvalidName(NameError::ForbiddenControlChar { char_offset: spec_clamp_u32(i) })
            && e.location == spec_shifted(nloc, spec_clamp_u32(i)) && e.length == 1
    } else if layout.step.micros <= layout.slant.micros {
        e.kind == ParseErrorKind::InvalidStepSlant(layout.step, layout.slant) && e.location == lloc && e.length == 1
    } else {
        spec_waveform_error(s, l0, l1, lloc, e)
    }
}

/// Index of the first space or tab of `s[i..end]`, or `end`.
pub open spec fn spec_first_space_tab(s: Seq<char>, i: int, end: int) -> int
    decreases end - i,
{
    if i >= end {
        end
    } else if spec_is_space_or_tab(s[i]) {
        i
    } else {
        spec_first_space_tab(s, i + 1, end)
    }
}

/// 1-based column of the character `offset` characters into a line.
fn column_of(offset: usize) -> (c: u32)
    ensures
        c >= 1,
        c == spec_column_of(offset as int),
{
    clamp_u32(offset).saturating_add(1)
}

/// Number of ASCII spaces and tabs that start `chars[a..b]`.
fn leading_space_tab(chars: &[char], a: usize, b: usize) -> (n: usize)
    requires
        a <= b <= chars@.len(),
    ensures
        n <= b - a,
        a + n == spec_skip_space_tab(chars@, a as int, b as int),
{
    let mut i = a;
    while i < b && is_space_or_tab(chars[i])
        invariant
            a <= i <= b <= chars@.len(),
            spec_skip_space_tab(chars@, a as int, b as int) == spec_skip_space_tab(chars@, i as int, b as int),
        decreases b - i,
    {
        i = i + 1;
    }
    i - a
}

/// How the anchor `k` is written: `@{name}` or `@N`.
pub open spec fn spec_anchor_text(k: AnchorKey) -> Seq<char> {
    if k.0 {
        seq!['@', '{'] + k.1 + seq!['}']
    } else {
        seq!['@'] + spec_decimal_digits(k.2 as nat)
    }
}

/// The number of decimal digits of `n`.
pub open spec fn spec_digit_count(n: nat) -> nat
    decreases n,
{
    if n < 10 { 1 } else { 1 + spec_digit_count(n / 10) }
}

proof fn lemma_decimal_digits_len(n: nat)
    ensures
        spec_decimal_digits(n).len() == spec_digit_count(n),
    decreases n,
{
    if n >= 10 {
        lemma_decimal_digits_len(n / 10);
    }
}

/// How an anchor is written: `@{name}` or `@N`.
fn anchor_display(id: &AnchorId) -> (s: String)
    ensures
        s@ == spec_anchor_text(id@),
{
    let mut s = String::new();
    match id {
        AnchorId::Named(name) => {
            push_str(&mut s, "@{");
            push_str(&mut s, name.as_str());
            push_char(&mut s, '}');
            proof {
                reveal_strlit("@{");
                assert(s@ =~= spec_anchor_text(id@));
            }
        },
        AnchorId::Indexed(v) => {
            push_char(&mut s, '@');
            push_decimal(&mut s, *v as u64);
            assert(s@ =~= spec_anchor_text(id@));
        },
    }
    s
}

/// Number of characters of an anchor token as written (saturating).
fn anchor_token_length(id: &AnchorId) -> (n: u32)
    ensures
        n == spec_clamp_u32(spec_anchor_text(id@).len() as int),
{
    proof {
        if let AnchorId::Indexed(v) = id {
            lemma_decimal_digits_len(*v as nat);
            reveal_with_fuel(spec_digit_count, 11);
        }
    }
    match id {
        AnchorId::Named(name) => clamp_u32(name.char_count()).saturating_add(3),
        AnchorId::Indexed(v) => {
            let v = *v;
            let digits: u32 = if v < 10 {
                1
            } else if v < 100 {
                2
            } else if v < 1_000 {
                3
            } else if v < 10_000 {
                4
            } else if v < 100_000 {
                5
            } else if v < 1_000_000 {
                6
            } else if v < 10_000_000 {
                7
            } else if v < 100_000_000 {
                8
            } else if v < 1_000_000_000 {
                9
            } else {
                10
            };
            digits + 1
        },
    }
}

/// The `@signal(...)` attribute list `s[pos..end]`, read with `seen`
/// telling whether `overline` came before: whether `overline` was given,
/// or, for the first token that is not a first `overline`, where its
/// segment starts after spaces and tabs and its trimmed span.
pub open spec fn spec_signal_attrs(s: Seq<char>, pos: int, end: int, seen: bool) -> Result<bool, (int, int, int)>
    decreases end - pos,
{
    if pos > end {
        Ok(seen)
    } else {
        let seg_end = match spec_first_index(s, pos, end, ',') {
            Some(c) => c,
            None => end,
        };
        let t = spec_trim(s, pos, seg_end);
        let next = if t.0 < t.1 {
            if s.subrange(t.0, t.1) == seq!['o', 'v', 'e', 'r', 'l', 'i', 'n', 'e'] && !seen { Some(true) } else { None }
        } else {
            Some(seen)
        };
        match next {
            None => Err((spec_skip_space_tab(s, pos, seg_end), t.0, t.1)),
            Some(b) => if seg_end >= end {
                Ok(b)
            } else {
                proof {
                    lemma_first_index(s, pos, end, ',');
                }
                spec_signal_attrs(s, seg_end + 1, end, b)
            },
        }
    }
}

/// The pieces of an overlay line `% x y text` whose payload, trimmed, is
/// `s[t0..t1]`: the ends of `x` and of `y` (each runs up to the next
/// whitespace character) and the trimmed text span.
pub open spec fn spec_overlay_parts(s: Seq<char>, t0: int, t1: int) -> (int, int, (int, int)) {
    let w1 = spec_first_ws(s, t0, t1);
    let w2 = spec_first_ws(s, w1 + 1, t1);
    (w1, w2, if w2 < t1 { spec_trim(s, w2 + 1, t1) } else { (w2, w2) })
}

/// What reading the overlay line `% x y text` with payload `s[ra..rb]`
/// does: it succeeds exactly when both coordinates are finite numbers and
/// the text holds no forbidden character, and it then appends the
/// overlay.
pub open spec fn spec_overlay_line(old: Parser, new: Parser, ok: bool, s: Seq<char>, ra: int, rb: int) -> bool {
    let t = spec_trim(s, ra, rb);
    let p = spec_overlay_parts(s, t.0, t.1);
    let n = old.overlays@.len();
    &&& ok <==> {
        &&& p.0 < t.1
        &&& spec_value_micros(s, t.0, p.0) is Some
        &&& spec_value_micros(s, p.0 + 1, p.1) is Some
        &&& forall|k: int| p.2.0 <= k < p.2.1 ==> !spec_is_forbidden(#[trigger] s[k])
    }
    &&& ok ==> {
        &&& new == (Parser { overlays: new.overlays, ..old })
        &&& new.overlays@.len() == n + 1
        &&& new.overlays@.subrange(0, n as int) == old.overlays@
        &&& new.overlays@[n as int].at == Point {
            x: Px { micros: spec_value_micros(s, t.0, p.0)->Some_0 },
            y: Px { micros: spec_value_micros(s, p.0 + 1, p.1)->Some_0 },
        }
        &&& new.overlays@[n as int].text@ == s.subrange(p.2.0, p.2.1)
    }
}

/// Whether `e` reports the overlay coordinate `s[a..b]` as unreadable:
/// the text as written, at its place (the line's location when empty), and
/// its length.
pub open spec fn spec_coordinate_error(s: Seq<char>, a: int, b: int, location: SourceLocation, raw_start: int, e: ParseError) -> bool {
    &&& e.kind matches ParseErrorKind::InvalidOverlayCoordinate(t) && t@ == s.subrange(a, b)
    &&& e.length == spec_clamp_u32(b - a)
    &&& e.location == if a == b { location } else { SourceLocation { line: location.line, column: spec_column_of(a - raw_start) } }
}

/// Why the overlay line with payload `s[ra..rb]` is refused with `e`: a
/// missing coordinate, an unreadable `x`, then `y`, or a forbidden
/// character in the text (pointed at).
pub open spec fn spec_overlay_error(s: Seq<char>, ra: int, rb: int, location: SourceLocation, raw_start: int, e: ParseError) -> bool {
    let t = spec_trim(s, ra, rb);
    let p = spec_overlay_parts(s, t.0, t.1);
    if p.0 >= t.1 {
        e.kind matches ParseErrorKind::InvalidOverlayCoordinate(x) && x@.len() == 0 && e.location == location && e.length == 0
    } else if spec_value_micros(s, t.0, p.0) is None {
        spec_coordinate_error(s, t.0, p.0, location, raw_start, e)
    } else if spec_value_micros(s, p.0 + 1, p.1) is None {
        spec_coordinate_error(s, p.0 + 1, p.1, location, raw_start, e)
    } else {
        let text_loc = if p.2.0 < p.2.1 { spec_shifted(location, spec_clamp_u32(p.2.0 - raw_start)) } else { location };
        spec_text_error(s.subrange(p.2.0, p.2.1)) matches Some(te) && e.kind == ParseErrorKind::InvalidText(te)
            && e.location == spec_shifted(text_loc, te->char_offset) && e.length == 1
    }
}

/// How a source line reads: blank (or only a comment), a quoted signal
/// name, a directive (`@`), an overlay (`%`), or a signal line; with the
/// span after the lead character (the whole span for a signal line).
pub enum LineClass {
    Blank,
    Quoted(int),
    Directive(int, int),
    Overlay(int, int),
    Signal(int, int),
}

pub open spec fn spec_line_class(s: Seq<char>, rs: int, re: int) -> LineClass {
    let first = spec_trim(s, rs, re).0;
    if first < re && s[first] == '"' {
        LineClass::Quoted(first)
    } else {
        let t = spec_trim(s, rs, spec_comment_cut(s, rs, re, false));
        if t.0 == t.1 {
            LineClass::Blank
        } else if s[t.0] == '@' {
            LineClass::Directive(t.0 + 1, t.1)
        } else if s[t.0] == '%' {
            LineClass::Overlay(t.0 + 1, t.1)
        } else {
            LineClass::Signal(t.0, t.1)
        }
    }
}

/// The anchors that the staged anchors resolve to, in order: each at its
/// row and element (its position is left to layout).
pub open spec fn spec_resolved_anchors(v: Seq<PendingAnchor>) -> Seq<ResolvedAnchor> {
    v.map_values(|a: PendingAnchor| ResolvedAnchor {
        position: Point { x: Px { micros: 0 }, y: Px { micros: 0 } },
        signal_index: a.signal_index,
        element_index: a.element_index,
    })
}

/// Index of the first staged anchor from `k` on whose identity was staged
/// before it.
pub open spec fn spec_first_repeat(keys: Seq<AnchorKey>, k: int) -> Option<int>
    decreases keys.len() - k,
{
    if k < 0 || k >= keys.len() {
        None
    } else if keys.subrange(0, k).contains(keys[k]) {
        Some(k)
    } else {
        spec_first_repeat(keys, k + 1)
    }
}

/// The first end, from arrow `i` on (an arrow's start before its end),
/// that names no anchor of `keys`: the arrow and whether it is the start.
pub open spec fn spec_first_unresolved(arrows: Seq<PendingArrow>, keys: Seq<AnchorKey>, i: int) -> Option<(int, bool)>
    decreases arrows.len() - i,
{
    if i < 0 || i >= arrows.len() {
        None
    } else if !keys.contains(spec_end_key(arrows[i].from)) {
        Some((i, true))
    } else if !keys.contains(spec_end_key(arrows[i].to)) {
        Some((i, false))
    } else {
        spec_first_unresolved(arrows, keys, i + 1)
    }
}

/// Whether `e` reports that the anchor end `end`, written at `location`,
/// names no declared anchor: the anchor as written, its place, its length.
pub open spec fn spec_undefined_anchor_error(e: ParseError, end: ArrowEnd, location: SourceLocation) -> bool {
    &&& e.kind matches ParseErrorKind::UndefinedAnchor(t) && t@ == spec_anchor_text(spec_end_key(end))
    &&& e.location == location
    &&& e.length == spec_clamp_u32(spec_anchor_text(spec_end_key(end)).len() as int)
}

/// The error of the anchor and arrow check on the staged anchors `pa` and
/// arrows `pw`: a repeated anchor is reported at its second declaration,
/// with its length; otherwise the first arrow end naming no declared
/// anchor; `None` when both checks pass.
pub open spec fn spec_check_error(pa: Seq<PendingAnchor>, pw: Seq<PendingArrow>, e: ParseError) -> bool {
    let keys = spec_pending_keys(pa);
    match spec_first_repeat(keys, 0) {
        Some(k) => e.kind == ParseErrorKind::DuplicateAnchor && e.location == pa[k].location
            && e.length == spec_clamp_u32(spec_anchor_text(keys[k]).len() as int),
        None => match spec_first_unresolved(pw, keys, 0) {
            Some((i, true)) => spec_undefined_anchor_error(e, pw[i].from, pw[i].from_location),
            Some((i, false)) => spec_undefined_anchor_error(e, pw[i].to, pw[i].to_location),
            None => false,
        },
    }
}

/// The identities of staged anchors, in order.
pub open spec fn spec_pending_keys(v: Seq<PendingAnchor>) -> Seq<AnchorKey> {
    v.map_values(|a: PendingAnchor| a.id@)
}

/// No identity occurs twice.
pub open spec fn spec_keys_distinct(k: Seq<AnchorKey>) -> bool {
    forall|i: int, j: int| 0 <= i < j < k.len() ==> #[trigger] k[i] != #[trigger] k[j]
}

/// Both ends of every staged arrow name one of `keys`.
pub open spec fn spec_arrows_resolve(arrows: Seq<PendingArrow>, keys: Seq<AnchorKey>) -> bool {
    forall|k: int| 0 <= k < arrows.len() ==> {
        &&& keys.contains(spec_end_key(#[trigger] arrows[k].from))
        &&& keys.contains(spec_end_key(arrows[k].to))
    }
}

/// A finite number's value (read wide, up to `MAX_WIDE_UNITS`), if
/// `s[a..b]` is one.
pub open spec fn spec_value_micros(s: Seq<char>, a: int, b: int) -> Option<i64> {
    match spec_wide_number(s, a, b) {
        Some(Number::Value { micros }) => Some(micros),
        _ => None,
    }
}

/// `new` is `old` with one more row, which took the staged background:
/// nothing else but the rows and the staged background changed.
pub open spec fn spec_row_pushed(old: Parser, new: Parser) -> bool {
    &&& new.lines@.len() == old.lines@.len() + 1
    &&& new.lines@.subrange(0, old.lines@.len() as int) == old.lines@
    &&& new.lines@.last().background == old.next_background
    &&& new.next_background is None
}

/// A `@skip(...)` amount: a non-negative number of line heights, or of
/// pixels with a `px` suffix (an `lh` suffix is allowed too), either in
/// any case; zero means no row.
pub open spec fn spec_skip_amount(s: Seq<char>, ta: int, tb: int) -> Result<Option<Length>, ()> {
    if ta >= tb {
        Err(())
    } else {
        let px = tb - ta >= 2 && spec_eq_ignore_case(s.subrange(tb - 2, tb), seq!['p', 'x']);
        let lh = !px && tb - ta >= 2 && spec_eq_ignore_case(s.subrange(tb - 2, tb), seq!['l', 'h']);
        let e = if px || lh { tb - 2 } else { tb };
        match spec_number(s, spec_trim(s, ta, e).0, spec_trim(s, ta, e).1) {
            Some(Number::Value { micros }) => if micros < 0 {
                Err(())
            } else if micros == 0 {
                Ok(None)
            } else if px {
                Ok(Some(Length::Px(Px { micros })))
            } else {
                Ok(Some(Length::Lh(Ratio { micros })))
            },
            _ => Err(()),
        }
    }
}

/// End of the name of the directive `s[ra..rb]` (the text after `@`):
/// the first `(`, space or tab, or the end.
pub open spec fn spec_head_end(s: Seq<char>, i: int, rb: int) -> int
    decreases rb - i,
{
    if i >= rb {
        rb
    } else if s[i] == '(' || spec_is_space_or_tab(s[i]) {
        i
    } else {
        spec_head_end(s, i + 1, rb)
    }
}

/// The name of the directive `s[ra..rb]`, trimmed of spaces and tabs.
pub open spec fn spec_directive_word(s: Seq<char>, ra: int, rb: int) -> Seq<char> {
    let he = spec_head_end(s, ra, rb);
    let a = spec_skip_space_tab(s, ra, he);
    s.subrange(a, spec_skip_space_tab_back(s, a, he))
}

/// The argument span of the directive `s[ra..rb]`, trimmed of spaces and
/// tabs.
pub open spec fn spec_directive_args(s: Seq<char>, ra: int, rb: int) -> (int, int) {
    let a = spec_skip_space_tab(s, spec_head_end(s, ra, rb), rb);
    (a, spec_skip_space_tab_back(s, a, rb))
}

/// Whether the directive `s[ra..rb]` is an arrow declaration `->...`.
pub open spec fn spec_is_arrow_line(s: Seq<char>, ra: int, rb: int) -> bool {
    rb - ra >= 2 && s[ra] == '-' && s[ra + 1] == '>'
}

/// `new` is `old` with one more title row holding `text`, aligned by
/// `@titlealign` (centred by default), in the canvas font and the label
/// colour; it took the staged background.
pub open spec fn spec_title_pushed(old: Parser, new: Parser, text: Seq<char>) -> bool {
    &&& spec_row_pushed(old, new)
    &&& new == (Parser { lines: new.lines, next_background: None, ..old })
    &&& new.lines@.last().content matches LineContent::Title(row) && {
        &&& row.text@ == text
        &&& row.style.align == match old.title_align {
            Some(a) => a,
            None => HorizontalAlign::Center,
        }
        &&& row.style.font.family@ == old.style.canvas.font.family@
        &&& row.style.font.size == old.style.canvas.font.size
        &&& row.style.color == old.style.label.color
    }
    &&& new.lines@.last().ruler_contributions@.len() == 0
}

/// What `@title` with arguments `s[aa..ab]` does: it needs an argument;
/// a bare text must hold no forbidden character, a quoted one (which may
/// run over the following lines) must be closed and hold none once
/// unescaped; the title row is then appended. A refused title changes
/// nothing.
pub open spec fn spec_title_directive(
    old: Parser,
    new: Parser,
    r: Result<usize, ParseError>,
    s: Seq<char>,
    lines: Seq<(usize, usize)>,
    index: int,
    aa: int,
    ab: int,
    location: SourceLocation,
) -> bool {
    let t = spec_trim(s, aa, ab);
    &&& r is Err ==> new == old
    &&& t.0 == t.1 ==> (r matches Err(e) && e.kind == ParseErrorKind::TitleRequiresArgument && e.location == location)
    &&& t.0 != t.1 && s[t.0] != '"' ==> {
        &&& r is Ok <==> forall|k: int| t.0 <= k < t.1 ==> !spec_is_forbidden(#[trigger] s[k])
        &&& r is Ok ==> r == Ok::<usize, ParseError>(1) && spec_title_pushed(old, new, s.subrange(t.0, t.1))
        &&& r matches Err(e) ==> spec_text_error(s.subrange(t.0, t.1)) matches Some(te) && e.kind == ParseErrorKind::InvalidText(te)
            && e.location == spec_shifted(location, te->char_offset) && e.length == 1
    }
    &&& t.0 != t.1 && s[t.0] == '"' ==> match spec_quoted_raw(s, lines, index, t.0 + 1, t.1) {
        Some((raw, c, _, _)) => {
            &&& r is Ok <==> forall|k: int| 0 <= k < spec_unescape(raw).len() ==> !spec_is_forbidden(#[trigger] spec_unescape(raw)[k])
            &&& r is Ok ==> r == Ok::<usize, ParseError>(c as usize) && spec_title_pushed(old, new, spec_unescape(raw))
            &&& r matches Err(e) ==> spec_text_error(spec_unescape(raw)) matches Some(te) && e.kind == ParseErrorKind::InvalidText(te)
                && e.location == spec_shifted(spec_shifted(location, 1), te->char_offset) && e.length == 1
        },
        None => r matches Err(e) && e.kind == ParseErrorKind::UnclosedQuote && e.location == location,
    }
}

/// The ruler units of a skip row: whole line heights, none for a pixel
/// amount.
pub open spec fn spec_skip_units(length: Length) -> int {
    match length {
        Length::Lh(r) => if r.micros >= 0 { spec_sat_u32(r.micros / 1_000_000) } else { 0 },
        Length::Px(_) => 0,
    }
}

/// What `@skip` with arguments `s[aa..ab]` does: the amount must stand in
/// parentheses and be valid; a zero amount changes nothing, any other
/// appends a skip row. A refused skip changes nothing.
pub open spec fn spec_skip_directive(old: Parser, new: Parser, r: Result<(), ParseError>, s: Seq<char>, aa: int, ab: int, location: SourceLocation) -> bool {
    &&& r is Err ==> new == old
    &&& match spec_strip_parens(s, aa, ab) {
        None => r matches Err(e) && e.kind == ParseErrorKind::InvalidSkipSyntax && e.location == location,
        Some((ia, ib)) => match spec_skip_amount(s, spec_trim(s, ia, ib).0, spec_trim(s, ia, ib).1) {
            Err(_) => r matches Err(e) && e.kind is InvalidSkipAmount && ({
                let t = spec_trim(s, ia, ib);
                &&& e.location == spec_shifted(location, spec_clamp_u32(t.0 - aa))
                &&& e.length == if t.0 == t.1 { 1 } else { spec_clamp_u32(t.1 - t.0) }
            }),
            Ok(None) => r is Ok && new == old,
            Ok(Some(len)) => r is Ok && spec_row_pushed(old, new)
                && new == (Parser { lines: new.lines, next_background: None, ..old })
                && new.lines@.last().content == LineContent::Skip(SkipRow { amount: len })
                && new.lines@.last().ruler_contributions@ == spec_ruler_line(old.ruler_on, old.style.layout.step,
                    spec_skip_units(len), old.ruler_color),
        },
    }
}

/// Where the arguments `s[aa..ab]` of a directive at `location` start:
/// the directive's own location when there are none.
pub open spec fn spec_arg_location(location: SourceLocation, aa: int, ab: int, raw_start: int) -> SourceLocation {
    if aa == ab { location } else { SourceLocation { line: location.line, column: spec_column_of(aa - raw_start) } }
}

/// The pieces of `@clock` arguments `s[aa..ab]`: the attribute span
/// (empty when there is no parenthesised list), where it starts in the
/// line, and the trailing signal line; `None` when `(` is not closed.
pub open spec fn spec_clock_parts(s: Seq<char>, aa: int, ab: int, location: SourceLocation) -> Option<(int, int, SourceLocation, int, int)> {
    let t0 = spec_skip_space_tab(s, aa, ab);
    let t1 = spec_skip_space_tab_back(s, t0, ab);
    if t0 == t1 {
        Some((t0, t0, location, t0, t0))
    } else if s[t0] != '(' {
        Some((t0, t0, spec_shifted(location, spec_clamp_u32(t0 - aa)), t0, t1))
    } else {
        match spec_first_index(s, t0 + 1, t1, ')') {
            None => None,
            Some(c) => {
                let u0 = spec_skip_space_tab(s, c + 1, t1);
                Some((t0 + 1, c, spec_shifted(spec_shifted(location, spec_clamp_u32(t0 - aa)), 1), u0,
                    spec_skip_space_tab_back(s, u0, t1)))
            },
        }
    }
}

/// What `@clock` with arguments `s[aa..ab]` does: with the step wider
/// than the slant and a valid attribute list, it stages that clock for
/// the next signal row, then reads the signal line that may follow on the
/// same line.
pub open spec fn spec_clock_directive(old: Parser, new: Parser, r: Result<(), ParseError>, s: Seq<char>, aa: int, ab: int, location: SourceLocation) -> bool {
    if old.style.layout.step.micros <= old.style.layout.slant.micros {
        r matches Err(e) && e.kind == ParseErrorKind::InvalidStepSlant(old.style.layout.step, old.style.layout.slant)
            && e.location == location && new == old
    } else {
        match spec_clock_parts(s, aa, ab, location) {
            None => r matches Err(e) && e.location == location && new == old && ({
                let t0 = spec_skip_space_tab(s, aa, ab);
                let t1 = spec_skip_space_tab_back(s, t0, ab);
                &&& e.kind matches ParseErrorKind::ClockInvalidAttribute(x) && x@ == s.subrange(t0, t1)
                &&& e.length == spec_clamp_u32(t1 - t0)
            }),
            Some((ia, ib, il, ta, tb)) => match spec_clock_list(spec_no_clock_attrs(), s, ia, ib) {
                Err((lead, xa, xb)) => r matches Err(e) && new == old && {
                    &&& e.kind matches ParseErrorKind::ClockInvalidAttribute(x) && x@ == s.subrange(xa, xb)
                    &&& e.location == spec_shifted(il, spec_clamp_u32(lead - ia))
                    &&& e.length == spec_clamp_u32(xb - xa)
                },
                Ok(a) => {
                    let mid = Parser {
                        next_clock: Some(spec_clock_from_attrs(a, old.clockmark, old.style.layout.step, old.style.signal.color)),
                        ..old
                    };
                    &&& ta == tb ==> r is Ok && new == mid
                    &&& ta != tb ==> spec_signal_line(mid, new, r is Ok, s, ta, tb, location, ta)
                        && (r matches Err(e) ==> spec_signal_line_error(mid, s, ta, tb, location, ta, e))
                },
            },
        }
    }
}

/// What the signal line `s[u0..u1]` that follows `@signal(...)` on its
/// line does: a quoted name may run over the following lines.
pub open spec fn spec_inline_row(
    old: Parser,
    new: Parser,
    r: Result<usize, ParseError>,
    s: Seq<char>,
    lines: Seq<(usize, usize)>,
    index: int,
    u0: int,
    u1: int,
    location: SourceLocation,
) -> bool {
    &&& s[u0] == '"' ==> spec_quoted_signal(old, new, r, s, lines, index, u0 + 1, u1, location)
    &&& s[u0] != '"' ==> spec_signal_line(old, new, r is Ok, s, u0, u1, location, u0) && (r is Ok ==> r == Ok::<usize, ParseError>(1))
        && (r matches Err(e) ==> spec_signal_line_error(old, s, u0, u1, location, u0, e))
}

/// What `@signal` with arguments `s[aa..ab]` does: with the step wider
/// than the slant, an empty argument does nothing; otherwise a
/// parenthesised attribute list (`overline`, at most once) stages its
/// attributes, and a signal line may follow on the same line.
pub open spec fn spec_signal_directive(
    old: Parser,
    new: Parser,
    r: Result<usize, ParseError>,
    s: Seq<char>,
    lines: Seq<(usize, usize)>,
    index: int,
    aa: int,
    ab: int,
    location: SourceLocation,
) -> bool {
    let t0 = spec_skip_space_tab(s, aa, ab);
    let t1 = spec_skip_space_tab_back(s, t0, ab);
    let close = if t0 != t1 && s[t0] == '(' { spec_first_index(s, t0 + 1, t1, ')') } else { None };
    if old.style.layout.step.micros <= old.style.layout.slant.micros {
        r matches Err(e) && e.kind == ParseErrorKind::InvalidStepSlant(old.style.layout.step, old.style.layout.slant)
            && e.location == location && new == old
    } else if t0 == t1 {
        r == Ok::<usize, ParseError>(1) && new == old
    } else {
        match close {
            None => r matches Err(e) && e.location == location && new == old && e.length == spec_clamp_u32(t1 - t0)
                && (e.kind matches ParseErrorKind::UnknownSignalAttribute(x) && x@ == s.subrange(t0, t1)),
            Some(c) => match spec_signal_attrs(s, t0 + 1, c, false) {
                Err((lead, xa, xb)) => r matches Err(e)
                    && (e.kind matches ParseErrorKind::UnknownSignalAttribute(x) && x@ == s.subrange(xa, xb))
                    && e.location == spec_shifted(spec_shifted(spec_shifted(location, spec_clamp_u32(t0 - aa)), 1),
                        spec_clamp_u32(lead - (t0 + 1)))
                    && e.length == spec_clamp_u32(xb - xa),
                Ok(seen) => {
                    let mid = Parser { next_overline: old.next_overline || seen, ..old };
                    let u0 = spec_skip_space_tab(s, c + 1, t1);
                    let u1 = spec_skip_space_tab_back(s, u0, t1);
                    &&& u0 == u1 ==> r == Ok::<usize, ParseError>(1) && new == mid
                    &&& u0 != u1 ==> spec_inline_row(mid, new, r, s, lines, index, u0, u1, location)
                },
            },
        }
    }
}

/// What a value directive (`@name value`, with `kind` the parameter that
/// `name` names and the value `s[a..b]`) does: a valid value is applied
/// (see `spec_directive_applied`); a refused one changes nothing.
pub open spec fn spec_value_directive(
    old: Parser,
    new: Parser,
    r: Result<usize, ParseError>,
    kind: ParamKind,
    s: Seq<char>,
    a: int,
    b: int,
    location: SourceLocation,
) -> bool {
    &&& r is Err ==> new == old
    &&& r matches Err(e) ==> spec_value_refusal(kind, s, a, b, e.kind) && spec_value_error_at(e, s, a, b, location)
    &&& r is Ok ==> r == Ok::<usize, ParseError>(1)
    &&& if kind == ParamKind::Font {
        &&& r is Ok <==> spec_text_error(spec_trimmed(s, a, b)) is None
        &&& r is Ok ==> exists|f: FontFamily| f@ == spec_trimmed(s, a, b) && #[trigger] spec_directive_applied(old, new, Directive::Font(f))
    } else if kind == ParamKind::HighlightStyle {
        match spec_svg_pairs(s.subrange(a, b), 0) {
            Ok(ps) => r is Ok && exists|l: SvgAttrList|
                spec_pair_models(l.pairs@) == ps && #[trigger] spec_directive_applied(old, new, Directive::HighlightStyle(l)),
            Err(_) => r is Err,
        }
    } else {
        match spec_directive(kind, s, a, b) {
            Some(d) => r is Ok && spec_directive_applied(old, new, d),
            None => r is Err,
        }
    }
}

/// What the directive line `@s[ra..rb]` (line `index`, at `location`)
/// does: `@->` declares an arrow; `@title`, `@skip`, `@clock`, `@signal`
/// and `@overline` add or decorate rows; any other name must name a
/// parameter, whose value it sets.
pub open spec fn spec_directive_line(
    old: Parser,
    new: Parser,
    r: Result<usize, ParseError>,
    s: Seq<char>,
    lines: Seq<(usize, usize)>,
    index: int,
    ra: int,
    rb: int,
    location: SourceLocation,
    raw_start: int,
) -> bool {
    let word = spec_directive_word(s, ra, rb);
    let args = spec_directive_args(s, ra, rb);
    let al = spec_arg_location(location, args.0, args.1, raw_start);
    let unit = match r {
        Ok(_) => Ok::<(), ParseError>(()),
        Err(e) => Err(e),
    };
    if spec_is_arrow_line(s, ra, rb) {
        &&& r is Err ==> new == old
        &&& spec_arrow_accepted(s, lines, index, ra + 2, rb) <==> r is Ok
        &&& r matches Err(e) ==> spec_arrow_error(s, lines, index, ra + 2, rb, location, e)
        &&& r matches Ok(c) ==> spec_arrow_read(s, lines, index, ra + 2, rb, old.style.signal.color, old.style.signal.width,
            old.style.canvas.font, new.pending_arrows@.last(), c as int)
        &&& r is Ok ==> {
            &&& spec_arrow_head_ok(s, ra + 2, rb)
            &&& new == (Parser { pending_arrows: new.pending_arrows, ..old })
            &&& new.pending_arrows@.len() == old.pending_arrows@.len() + 1
            &&& new.pending_arrows@.subrange(0, old.pending_arrows@.len() as int) == old.pending_arrows@
        }
    } else if word == seq!['t', 'i', 't', 'l', 'e'] {
        spec_title_directive(old, new, r, s, lines, index, args.0, args.1, al)
    } else if word == seq!['s', 'k', 'i', 'p'] {
        spec_skip_directive(old, new, unit, s, args.0, args.1, al) && (r is Ok ==> r == Ok::<usize, ParseError>(1))
    } else if word == seq!['c', 'l', 'o', 'c', 'k'] {
        spec_clock_directive(old, new, unit, s, args.0, args.1, al) && (r is Ok ==> r == Ok::<usize, ParseError>(1))
    } else if word == seq!['s', 'i', 'g', 'n', 'a', 'l'] {
        spec_signal_directive(old, new, r, s, lines, index, args.0, args.1, al)
    } else if word == seq!['o', 'v', 'e', 'r', 'l', 'i', 'n', 'e'] {
        &&& r is Ok <==> spec_trim(s, args.0, args.1).0 == spec_trim(s, args.0, args.1).1
        &&& r is Ok ==> r == Ok::<usize, ParseError>(1) && new == (Parser { next_overline: true, ..old })
        &&& r is Err ==> new == old
    } else {
        match spec_param_kind(spec_normalise(word)) {
            None => r matches Err(e) && e.location == location && new == old
                && e.length == spec_clamp_u32(word.len() as int)
                && (e.kind matches ParseErrorKind::UnknownParameter(n) && n@ == word),
            Some(kind) => spec_value_directive(old, new, r, kind, s, args.0, args.1, al),
        }
    }
}

/// The parts of the chart style `n` not flagged as changing are those of
/// `o`.
pub open spec fn spec_style_kept(o: ChartStyle, n: ChartStyle, canvas: bool, background: bool, signal: bool, label: bool) -> bool {
    &&& canvas || n.canvas == o.canvas
    &&& background || n.background == o.background
    &&& signal || n.signal == o.signal
    &&& label || n.label == o.label
}

/// `n` is the signal style `o` with only the fields named by `color`,
/// `width`, `guide`, `highlight` and `dontcare` possibly changed.
pub open spec fn spec_signal_kept(o: SignalStyle, n: SignalStyle, color: bool, width: bool, guide: bool, highlight: bool, dontcare: bool) -> bool {
    &&& color || n.color == o.color
    &&& width || n.width == o.width
    &&& guide || n.guide == o.guide
    &&& highlight || n.highlight == o.highlight
    &&& dontcare || n.dontcare_color == o.dontcare_color
}

/// `n` is the name style `o` with at most its padding, overline gap or
/// overline thickness changed, as flagged.
pub open spec fn spec_label_kept(o: LabelStyle, n: LabelStyle, padding: bool, gap: bool, thickness: bool) -> bool {
    &&& n.font == o.font
    &&& n.align == o.align
    &&& n.color == o.color
    &&& padding || n.padding == o.padding
    &&& gap || n.overline_gap == o.overline_gap
    &&& thickness || n.overline_thickness == o.overline_thickness
}

/// What one value directive changes: the style field it names (with the
/// line height following the font size, and the name colour the signal
/// colour), or the parser setting it names; nothing else of the parser.
pub open spec fn spec_directive_applied(old: Parser, new: Parser, d: Directive) -> bool {
    let o = old.style;
    let st = new.style;
    let only_style = new == (Parser { style: st, ..old });
    &&& st.layout == spec_layout_after(o.layout, d)
    &&& match d {
        Directive::FontSize(v) => only_style && spec_style_kept(o, st, true, false, false, false)
            && st.canvas.font.size == v && st.canvas.font.family == o.canvas.font.family
            && st.canvas.line_height.micros == spec_scaled(v, Ratio { micros: 1_200_000 })
            && st.canvas.page_margin == o.canvas.page_margin && st.canvas.scale == o.canvas.scale,
        Directive::LineHeight(v) => only_style && spec_style_kept(o, st, true, false, false, false)
            && st.canvas.line_height.micros == spec_scaled(o.canvas.font.size, v) && st.canvas.font == o.canvas.font
            && st.canvas.page_margin == o.canvas.page_margin && st.canvas.scale == o.canvas.scale,
        Directive::Scale(v) => only_style && spec_style_kept(o, st, true, false, false, false)
            && st.canvas.scale == v && st.canvas.font == o.canvas.font && st.canvas.line_height == o.canvas.line_height
            && st.canvas.page_margin == o.canvas.page_margin,
        Directive::PageMargin(v) => only_style && spec_style_kept(o, st, true, false, false, false)
            && st.canvas.page_margin == v && st.canvas.font == o.canvas.font && st.canvas.line_height == o.canvas.line_height
            && st.canvas.scale == o.canvas.scale,
        Directive::CapWidth(_) | Directive::Step(_) | Directive::Slant(_) | Directive::SignalGap(_) =>
            only_style && spec_style_kept(o, st, false, false, false, false),
        Directive::NamePad(v) => only_style && spec_style_kept(o, st, false, false, false, true)
            && st.label.padding == v && spec_label_kept(o.label, st.label, true, false, false),
        Directive::OverlineGap(v) => only_style && spec_style_kept(o, st, false, false, false, true)
            && st.label.overline_gap == v && spec_label_kept(o.label, st.label, false, true, false),
        Directive::OverlineThickness(v) => only_style && spec_style_kept(o, st, false, false, false, true)
            && st.label.overline_thickness == v && spec_label_kept(o.label, st.label, false, false, true),
        Directive::Font(v) => only_style && spec_style_kept(o, st, true, false, false, true)
            && st.canvas.font.family@ == v@ && st.label.font.family@ == v@
            && st.canvas.font.size == o.canvas.font.size && st.canvas.line_height == o.canvas.line_height
            && st.canvas.page_margin == o.canvas.page_margin && st.canvas.scale == o.canvas.scale
            && st.label.font.size == o.label.font.size && st.label.align == o.label.align && st.label.color == o.label.color
            && st.label.padding == o.label.padding && st.label.overline_gap == o.label.overline_gap
            && st.label.overline_thickness == o.label.overline_thickness,
        Directive::SignalColor(v) => only_style && spec_style_kept(o, st, false, false, true, true)
            && st.signal.color == v && spec_signal_kept(o.signal, st.signal, true, false, false, false, false)
            && st.label.color == v && st.label.font == o.label.font && st.label.align == o.label.align
            && st.label.padding == o.label.padding && st.label.overline_gap == o.label.overline_gap
            && st.label.overline_thickness == o.label.overline_thickness,
        Directive::SignalWidth(v) => only_style && spec_style_kept(o, st, false, false, true, false)
            && st.signal.width == v && spec_signal_kept(o.signal, st.signal, false, true, false, false, false),
        Directive::GuideColor(v) => only_style && spec_style_kept(o, st, false, false, true, false)
            && st.signal.guide.color == v && st.signal.guide.width == o.signal.guide.width
            && spec_signal_kept(o.signal, st.signal, false, false, true, false, false),
        Directive::GuideWidth(v) => only_style && spec_style_kept(o, st, false, false, true, false)
            && st.signal.guide.width == v && st.signal.guide.color == o.signal.guide.color
            && spec_signal_kept(o.signal, st.signal, false, false, true, false, false),
        Directive::HighlightStyle(v) => only_style && spec_style_kept(o, st, false, false, true, false)
            && st.signal.highlight == v && spec_signal_kept(o.signal, st.signal, false, false, false, true, false),
        Directive::DontcareColor(v) => only_style && spec_style_kept(o, st, false, false, true, false)
            && st.signal.dontcare_color == v && spec_signal_kept(o.signal, st.signal, false, false, false, false, true),
        Directive::BgColor0(v) => only_style && spec_style_kept(o, st, false, true, false, false)
            && st.background.bgcolor0 == v && st.background.bgcolor1 == o.background.bgcolor1,
        Directive::BgColor1(v) => only_style && spec_style_kept(o, st, false, true, false, false)
            && st.background.bgcolor1 == v && st.background.bgcolor0 == o.background.bgcolor0,
        Directive::Bg(v) => new == (Parser { next_background: v, ..old }),
        Directive::TitleAlign(v) => new == (Parser { title_align: Some(v), ..old }),
        Directive::ClockmarkPosition(v) => new == (Parser { clockmark: MarkOverrides { position: Some(v), ..old.clockmark }, ..old }),
        Directive::ClockmarkHeight(v) => new == (Parser { clockmark: MarkOverrides { height: Some(v), ..old.clockmark }, ..old }),
        Directive::ClockmarkWidth(v) => new == (Parser { clockmark: MarkOverrides { width: Some(v), ..old.clockmark }, ..old }),
        Directive::ClockmarkColor(v) => new == (Parser { clockmark: MarkOverrides { color: Some(v), ..old.clockmark }, ..old }),
        Directive::Ruler(v) => new == (Parser { ruler_on: v, ..old }),
        Directive::RulerColor(v) => new == (Parser { ruler_color: v, ..old }),
    }
}

/// The row layout after the value directive `d`: `@step` (which also
/// narrows a slant not set explicitly that would not fit to half the step,
/// rounded down to a half pixel), `@slant`,
/// `@h_space` and `@capwidth` change it, the others leave it.
pub open spec fn spec_layout_after(l: LayoutParams, d: Directive) -> LayoutParams {
    match d {
        Directive::Step(v) => LayoutParams {
            step: v,
            slant: if !l.slant_explicit && l.slant.micros >= v.micros {
                spec_half_step(v)
            } else {
                l.slant
            },
            ..l
        },
        Directive::Slant(v) => LayoutParams { slant: v, slant_explicit: true, ..l },
        Directive::SignalGap(v) => LayoutParams { h_space: v, ..l },
        Directive::CapWidth(v) => LayoutParams { capwidth: v, ..l },
        _ => l,
    }
}

/// What reading the logical line that starts at source line `index`
/// does, by its class; `r` tells how many source lines it took.
#[verifier::opaque]
pub open spec fn spec_line_step(old: Parser, new: Parser, r: Result<usize, ParseError>, s: Seq<char>, lines: Seq<(usize, usize)>, index: int) -> bool {
    let rs = lines[index].0 as int;
    let re = lines[index].1 as int;
    let location = SourceLocation { line: spec_clamp_u32(index + 1), column: spec_column_of(spec_skip_space_tab(s, rs, re) - rs) };
    match spec_line_class(s, rs, re) {
        LineClass::Blank => r == Ok::<usize, ParseError>(1) && new == old,
        LineClass::Signal(a, b) => spec_signal_line(old, new, r is Ok, s, a, b, location, rs)
            && (r is Ok ==> r == Ok::<usize, ParseError>(1))
            && (r matches Err(e) ==> spec_signal_line_error(old, s, a, b, location, rs, e)),
        LineClass::Overlay(a, b) => spec_overlay_line(old, new, r is Ok, s, a, b)
            && (r is Ok ==> r == Ok::<usize, ParseError>(1))
            && (r matches Err(e) ==> new == old && spec_overlay_error(s, a, b, location, rs, e)),
        LineClass::Quoted(q) => spec_quoted_signal(old, new, r, s, lines, index, q + 1, re,
            SourceLocation { line: spec_clamp_u32(index + 1), column: 1 }),
        LineClass::Directive(a, b) => spec_directive_line(old, new, r, s, lines, index, a, b, location, rs),
    }
}

/// `states` are the parser states between logical lines read one after
/// the other without error: logical line `i` starts at source line
/// `marks[i]` and takes `states[i]` to `states[i + 1]`.
pub open spec fn spec_lines_read(s: Seq<char>, lines: Seq<(usize, usize)>, states: Seq<Parser>, marks: Seq<int>) -> bool {
    &&& states.len() == marks.len()
    &&& marks.len() >= 1
    &&& marks[0] == 0
    &&& marks.last() <= lines.len()
    &&& forall|k: int| 0 <= k < marks.len() ==> 0 <= #[trigger] marks[k] <= lines.len()
    &&& forall|i: int, j: int| #![trigger states[i], states[j]] #![trigger marks[i], marks[j]] 0 <= i && j == i + 1 && j < states.len() ==> {
        &&& marks[i] < marks[j]
        &&& spec_line_step(states[i], states[j], Ok((marks[j] - marks[i]) as usize), s, lines, marks[i])
    }
}

/// Reading the logical line at source line `index` from state `p` fails
/// with `e`.
pub open spec fn spec_line_error(p: Parser, e: ParseError, s: Seq<char>, lines: Seq<(usize, usize)>, index: int) -> bool {
    exists|after: Parser| #[trigger] spec_line_step(p, after, Err(e), s, lines, index)
}

/// The whole source read without error: the last mark is the number of
/// source lines.
pub open spec fn spec_line_trace(s: Seq<char>, lines: Seq<(usize, usize)>, states: Seq<Parser>, marks: Seq<int>) -> bool {
    &&& spec_lines_read(s, lines, states, marks)
    &&& marks.last() == lines.len()
}

/// The width, in millionths of a pixel, that a row gives the chart: a
/// signal row counts its step times its units (saturating), unless it is
/// a clock row without levels of its own; other rows count nothing.
pub open spec fn spec_row_width(line: Line) -> Option<int> {
    match line.content {
        LineContent::Signal(row) => if row.decorations.clock is Some && row.waveform.elements@.len() == 0 {
            None
        } else {
            let t = spec_units_total(row.waveform.elements@);
            Some(spec_clamp_i64(row.layout_params.step.micros * (if t <= u32::MAX { t } else { u32::MAX as int })))
        },
        _ => None,
    }
}

/// The widest row of `lines` (0 when none counts).
pub open spec fn spec_max_width(lines: Seq<Line>) -> int
    decreases lines.len(),
{
    if lines.len() == 0 {
        0
    } else {
        let m = spec_max_width(lines.drop_last());
        match spec_row_width(lines.last()) {
            Some(w) => if m >= w { m } else { w },
            None => m,
        }
    }
}

/// `new` is the row `old` after clock rows were extended to `max`
/// millionths: a clock row gets pulses up to the units that width takes
/// at its own step; every other row stays as it was.
pub open spec fn spec_line_expanded(old: Line, new: Line, max: int) -> bool {
    match old.content {
        LineContent::Signal(row) => if row.decorations.clock is Some {
            &&& new.background == old.background
            &&& new.ruler_contributions == old.ruler_contributions
            &&& new.content matches LineContent::Signal(nrow)
                && spec_clock_expanded(*row, *nrow, spec_target_units(Px { micros: max as i64 }, row.layout_params.step))
        } else {
            new == old
        },
        _ => new == old,
    }
}

/// The ends of the staged arrows, in order.
pub open spec fn spec_arrow_ends(v: Seq<PendingArrow>) -> Seq<(AnchorKey, AnchorKey)> {
    v.map_values(|a: PendingArrow| (spec_end_key(a.from), spec_end_key(a.to)))
}

/// What of a parser state decides how the lines that follow read and
/// whether the anchors and arrows check: the row layout, the identities
/// of the staged anchors and the ends of the staged arrows.
pub open spec fn spec_course(p: Parser) -> (LayoutParams, Seq<AnchorKey>, Seq<(AnchorKey, AnchorKey)>) {
    (p.style.layout, spec_pending_keys(p.pending_anchors@), spec_arrow_ends(p.pending_arrows@))
}

/// Staging a row's anchors after those already staged adds their
/// identities after the others.
proof fn lemma_keys_appended(old_v: Seq<PendingAnchor>, new_v: Seq<PendingAnchor>, am: Seq<(AnchorKey, int, SourceLocation)>)
    requires
        old_v.len() <= new_v.len(),
        new_v.subrange(0, old_v.len() as int) == old_v,
        spec_pending_models(new_v.subrange(old_v.len() as int, new_v.len() as int)) == am,
    ensures
        spec_pending_keys(new_v) == spec_pending_keys(old_v) + am.map_values(|m: (AnchorKey, int, SourceLocation)| m.0),
{
    let n = old_v.len() as int;
    let tail = new_v.subrange(n, new_v.len() as int);
    assert forall|k: int| 0 <= k < new_v.len() implies #[trigger] spec_pending_keys(new_v)[k]
        == (spec_pending_keys(old_v) + am.map_values(|m: (AnchorKey, int, SourceLocation)| m.0))[k] by {
        if k < n {
            assert(new_v[k] == old_v[k]);
        } else {
            assert(tail[k - n] == new_v[k]);
            assert(spec_pending_models(tail)[k - n] == am[k - n]);
        }
    }
    assert(spec_pending_keys(new_v) =~= spec_pending_keys(old_v) + am.map_values(|m: (AnchorKey, int, SourceLocation)| m.0));
}

/// Staging one more arrow adds its ends after the others.
proof fn lemma_ends_pushed(old_v: Seq<PendingArrow>, new_v: Seq<PendingArrow>)
    requires
        new_v.len() == old_v.len() + 1,
        new_v.subrange(0, old_v.len() as int) == old_v,
    ensures
        spec_arrow_ends(new_v) == spec_arrow_ends(old_v).push((spec_end_key(new_v.last().from), spec_end_key(new_v.last().to))),
{
    assert forall|k: int| 0 <= k < old_v.len() implies #[trigger] spec_arrow_ends(new_v)[k] == spec_arrow_ends(old_v)[k] by {
        assert(new_v[k] == old_v[k]);
    }
    assert(spec_arrow_ends(new_v) =~= spec_arrow_ends(old_v).push((spec_end_key(new_v.last().from), spec_end_key(new_v.last().to))));
}

/// Reading one line goes the same way from two states with the same
/// course: it succeeds on both, takes the same number of source lines, and
/// leaves states with the same course.
proof fn lemma_step_same_course(
    a: Parser,
    a2: Parser,
    c: int,
    b: Parser,
    b2: Parser,
    r: Result<usize, ParseError>,
    s: Seq<char>,
    lines: Seq<(usize, usize)>,
    i: int,
)
    requires
        spec_line_step(a, a2, Ok(c as usize), s, lines, i),
        spec_line_step(b, b2, r, s, lines, i),
        spec_course(a) == spec_course(b),
    ensures
        r == Ok::<usize, ParseError>(c as usize),
        spec_course(a2) == spec_course(b2),
{
    reveal(spec_line_step);
    let rs = lines[i].0 as int;
    let re = lines[i].1 as int;
    assert(a.style.layout == b.style.layout);
    assert(spec_pending_keys(a.pending_anchors@) == spec_pending_keys(b.pending_anchors@));
    assert(spec_arrow_ends(a.pending_arrows@) == spec_arrow_ends(b.pending_arrows@));
    match spec_line_class(s, rs, re) {
        LineClass::Blank => {},
        LineClass::Signal(la, lb) => {
            let location = SourceLocation { line: spec_clamp_u32(i + 1), column: spec_column_of(spec_skip_space_tab(s, rs, re) - rs) };
            lemma_signal_line_course(a, a2, b, b2, r is Ok, s, la, lb, location, rs);
        },
        LineClass::Overlay(_, _) => {},
        LineClass::Quoted(q) => {
            lemma_quoted_course(a, a2, c, b, b2, r, s, lines, i, q + 1, re, SourceLocation { line: spec_clamp_u32(i + 1), column: 1 });
        },
        LineClass::Directive(da, db) => {
            let location = SourceLocation { line: spec_clamp_u32(i + 1), column: spec_column_of(spec_skip_space_tab(s, rs, re) - rs) };
            lemma_directive_course(a, a2, c, b, b2, r, s, lines, i, da, db, location, rs);
        },
    }
}

proof fn lemma_signal_line_course(
    a: Parser,
    a2: Parser,
    b: Parser,
    b2: Parser,
    ok: bool,
    s: Seq<char>,
    la: int,
    lb: int,
    location: SourceLocation,
    raw_start: int,
)
    requires
        spec_signal_line(a, a2, true, s, la, lb, location, raw_start),
        spec_signal_line(b, b2, ok, s, la, lb, location, raw_start),
        spec_course(a) == spec_course(b),
    ensures
        ok,
        spec_course(a2) == spec_course(b2),
{
    assert(a.style.layout == b.style.layout);
    let sep = spec_first_space_tab(s, la, lb);
    let l0 = spec_skip_space_tab(s, sep, lb);
    let l1 = spec_skip_space_tab_back(s, l0, lb);
    let lloc = if l0 == l1 { location } else { SourceLocation { line: location.line, column: spec_column_of(l0 - raw_start) } };
    let am = spec_waveform_anchors(s, l0, l1, lloc)->Some_0;
    lemma_keys_appended(a.pending_anchors@, a2.pending_anchors@, am);
    lemma_keys_appended(b.pending_anchors@, b2.pending_anchors@, am);
}

proof fn lemma_quoted_course(
    a: Parser,
    a2: Parser,
    c: int,
    b: Parser,
    b2: Parser,
    r: Result<usize, ParseError>,
    s: Seq<char>,
    lines: Seq<(usize, usize)>,
    i: int,
    qa: int,
    qb: int,
    location: SourceLocation,
)
    requires
        spec_quoted_signal(a, a2, Ok(c as usize), s, lines, i, qa, qb, location),
        spec_quoted_signal(b, b2, r, s, lines, i, qa, qb, location),
        spec_course(a) == spec_course(b),
    ensures
        r == Ok::<usize, ParseError>(c as usize),
        spec_course(a2) == spec_course(b2),
{
    assert(a.style.layout == b.style.layout);
    let (raw, cc, t, e) = spec_quoted_raw(s, lines, i, qa, qb)->Some_0;
    let w = spec_trim(s, t, spec_comment_cut(s, t, e, false));
    let am = spec_waveform_anchors(s, w.0, w.1, location)->Some_0;
    lemma_keys_appended(a.pending_anchors@, a2.pending_anchors@, am);
    lemma_keys_appended(b.pending_anchors@, b2.pending_anchors@, am);
}

proof fn lemma_directive_course(
    a: Parser,
    a2: Parser,
    c: int,
    b: Parser,
    b2: Parser,
    r: Result<usize, ParseError>,
    s: Seq<char>,
    lines: Seq<(usize, usize)>,
    i: int,
    ra: int,
    rb: int,
    location: SourceLocation,
    raw_start: int,
)
    requires
        spec_directive_line(a, a2, Ok(c as usize), s, lines, i, ra, rb, location, raw_start),
        spec_directive_line(b, b2, r, s, lines, i, ra, rb, location, raw_start),
        spec_course(a) == spec_course(b),
    ensures
        r == Ok::<usize, ParseError>(c as usize),
        spec_course(a2) == spec_course(b2),
{
    let word = spec_directive_word(s, ra, rb);
    let args = spec_directive_args(s, ra, rb);
    let al = spec_arg_location(location, args.0, args.1, raw_start);
    let unit_b = match r {
        Ok(_) => Ok::<(), ParseError>(()),
        Err(e) => Err(e),
    };
    if spec_is_arrow_line(s, ra, rb) {
        lemma_arrow_course(a, a2, (c as usize) as int, b, b2, r, s, lines, i, ra + 2, rb);
    } else if word == seq!['t', 'i', 't', 'l', 'e'] {
        assert(spec_title_directive(a, a2, Ok(c as usize), s, lines, i, args.0, args.1, al));
        assert(spec_title_directive(b, b2, r, s, lines, i, args.0, args.1, al));
        lemma_title_course(a, a2, c, b, b2, r, s, lines, i, args.0, args.1, al);
    } else if word == seq!['s', 'k', 'i', 'p'] {
        assert(spec_skip_directive(a, a2, Ok(()), s, args.0, args.1, al));
        assert(spec_skip_directive(b, b2, unit_b, s, args.0, args.1, al));
        lemma_skip_course(a, a2, b, b2, unit_b, s, args.0, args.1, al);
    } else if word == seq!['c', 'l', 'o', 'c', 'k'] {
        assert(spec_clock_directive(a, a2, Ok(()), s, args.0, args.1, al));
        assert(spec_clock_directive(b, b2, unit_b, s, args.0, args.1, al));
        lemma_clock_course(a, a2, b, b2, unit_b, s, args.0, args.1, al);
    } else if word == seq!['s', 'i', 'g', 'n', 'a', 'l'] {
        assert(spec_signal_directive(a, a2, Ok(c as usize), s, lines, i, args.0, args.1, al));
        assert(spec_signal_directive(b, b2, r, s, lines, i, args.0, args.1, al));
        lemma_signal_directive_course(a, a2, c, b, b2, r, s, lines, i, args.0, args.1, al);
    } else if word == seq!['o', 'v', 'e', 'r', 'l', 'i', 'n', 'e'] {
    } else {
        match spec_param_kind(spec_normalise(word)) {
            None => {},
            Some(kind) => {
                assert(spec_value_directive(a, a2, Ok(c as usize), kind, s, args.0, args.1, al));
                assert(spec_value_directive(b, b2, r, kind, s, args.0, args.1, al));
                lemma_value_course(a, a2, c, b, b2, r, kind, s, args.0, args.1, al);
            },
        }
    }
}

proof fn lemma_arrow_course(
    a: Parser,
    a2: Parser,
    c: int,
    b: Parser,
    b2: Parser,
    r: Result<usize, ParseError>,
    s: Seq<char>,
    lines: Seq<(usize, usize)>,
    i: int,
    xa: int,
    xb: int,
)
    requires
        spec_arrow_accepted(s, lines, i, xa, xb),
        spec_arrow_accepted(s, lines, i, xa, xb) <==> r is Ok,
        spec_arrow_read(s, lines, i, xa, xb, a.style.signal.color, a.style.signal.width, a.style.canvas.font,
            a2.pending_arrows@.last(), c),
        r matches Ok(cb) ==> spec_arrow_read(s, lines, i, xa, xb, b.style.signal.color, b.style.signal.width,
            b.style.canvas.font, b2.pending_arrows@.last(), cb as int),
        a2 == (Parser { pending_arrows: a2.pending_arrows, ..a }),
        a2.pending_arrows@.len() == a.pending_arrows@.len() + 1,
        a2.pending_arrows@.subrange(0, a.pending_arrows@.len() as int) == a.pending_arrows@,
        r is Ok ==> {
            &&& b2 == (Parser { pending_arrows: b2.pending_arrows, ..b })
            &&& b2.pending_arrows@.len() == b.pending_arrows@.len() + 1
            &&& b2.pending_arrows@.subrange(0, b.pending_arrows@.len() as int) == b.pending_arrows@
        },
        spec_course(a) == spec_course(b),
        0 <= c <= usize::MAX,
    ensures
        r == Ok::<usize, ParseError>(c as usize),
        spec_course(a2) == spec_course(b2),
{
    lemma_ends_pushed(a.pending_arrows@, a2.pending_arrows@);
    lemma_ends_pushed(b.pending_arrows@, b2.pending_arrows@);
}

proof fn lemma_title_course(
    a: Parser,
    a2: Parser,
    c: int,
    b: Parser,
    b2: Parser,
    r: Result<usize, ParseError>,
    s: Seq<char>,
    lines: Seq<(usize, usize)>,
    i: int,
    aa: int,
    ab: int,
    location: SourceLocation,
)
    requires
        spec_title_directive(a, a2, Ok(c as usize), s, lines, i, aa, ab, location),
        spec_title_directive(b, b2, r, s, lines, i, aa, ab, location),
        spec_course(a) == spec_course(b),
    ensures
        r == Ok::<usize, ParseError>(c as usize),
        spec_course(a2) == spec_course(b2),
{
    let t = spec_trim(s, aa, ab);
    assert(t.0 != t.1);
    if s[t.0] != '"' {
        assert(r is Ok);
        assert(spec_title_pushed(a, a2, s.subrange(t.0, t.1)));
        assert(a2.style == a.style);
        assert(a2.pending_anchors == a.pending_anchors);
    } else {
        assert(r is Ok);
    }
}

proof fn lemma_skip_course(
    a: Parser,
    a2: Parser,
    b: Parser,
    b2: Parser,
    r: Result<(), ParseError>,
    s: Seq<char>,
    aa: int,
    ab: int,
    location: SourceLocation,
)
    requires
        spec_skip_directive(a, a2, Ok(()), s, aa, ab, location),
        spec_skip_directive(b, b2, r, s, aa, ab, location),
        spec_course(a) == spec_course(b),
    ensures
        r is Ok,
        spec_course(a2) == spec_course(b2),
{
}

proof fn lemma_clock_course(
    a: Parser,
    a2: Parser,
    b: Parser,
    b2: Parser,
    r: Result<(), ParseError>,
    s: Seq<char>,
    aa: int,
    ab: int,
    location: SourceLocation,
)
    requires
        spec_clock_directive(a, a2, Ok(()), s, aa, ab, location),
        spec_clock_directive(b, b2, r, s, aa, ab, location),
        spec_course(a) == spec_course(b),
    ensures
        r is Ok,
        spec_course(a2) == spec_course(b2),
{
    assert(a.style.layout == b.style.layout);
    match spec_clock_parts(s, aa, ab, location) {
        None => {},
        Some((ia, ib, il, ta, tb)) => match spec_clock_list(spec_no_clock_attrs(), s, ia, ib) {
            Err(_) => {},
            Ok(attrs) => {
                let mid_a = Parser {
                    next_clock: Some(spec_clock_from_attrs(attrs, a.clockmark, a.style.layout.step, a.style.signal.color)),
                    ..a
                };
                let mid_b = Parser {
                    next_clock: Some(spec_clock_from_attrs(attrs, b.clockmark, b.style.layout.step, b.style.signal.color)),
                    ..b
                };
                if ta != tb {
                    lemma_signal_line_course(mid_a, a2, mid_b, b2, r is Ok, s, ta, tb, location, ta);
                }
            },
        },
    }
}

proof fn lemma_signal_directive_course(
    a: Parser,
    a2: Parser,
    c: int,
    b: Parser,
    b2: Parser,
    r: Result<usize, ParseError>,
    s: Seq<char>,
    lines: Seq<(usize, usize)>,
    i: int,
    aa: int,
    ab: int,
    location: SourceLocation,
)
    requires
        spec_signal_directive(a, a2, Ok(c as usize), s, lines, i, aa, ab, location),
        spec_signal_directive(b, b2, r, s, lines, i, aa, ab, location),
        spec_course(a) == spec_course(b),
    ensures
        r == Ok::<usize, ParseError>(c as usize),
        spec_course(a2) == spec_course(b2),
{
    assert(a.style.layout == b.style.layout);
    let t0 = spec_skip_space_tab(s, aa, ab);
    let t1 = spec_skip_space_tab_back(s, t0, ab);
    if t0 != t1 && s[t0] == '(' {
        match spec_first_index(s, t0 + 1, t1, ')') {
            None => {},
            Some(cl) => match spec_signal_attrs(s, t0 + 1, cl, false) {
                Err(_) => {},
                Ok(seen) => {
                    let mid_a = Parser { next_overline: a.next_overline || seen, ..a };
                    let mid_b = Parser { next_overline: b.next_overline || seen, ..b };
                    let u0 = spec_skip_space_tab(s, cl + 1, t1);
                    let u1 = spec_skip_space_tab_back(s, u0, t1);
                    if u0 != u1 {
                        if s[u0] == '"' {
                            lemma_quoted_course(mid_a, a2, c, mid_b, b2, r, s, lines, i, u0 + 1, u1, location);
                        } else {
                            lemma_signal_line_course(mid_a, a2, mid_b, b2, r is Ok, s, u0, u1, location, u0);
                        }
                    }
                },
            },
        }
    }
}

proof fn lemma_value_course(
    a: Parser,
    a2: Parser,
    c: int,
    b: Parser,
    b2: Parser,
    r: Result<usize, ParseError>,
    kind: ParamKind,
    s: Seq<char>,
    va: int,
    vb: int,
    location: SourceLocation,
)
    requires
        spec_value_directive(a, a2, Ok(c as usize), kind, s, va, vb, location),
        spec_value_directive(b, b2, r, kind, s, va, vb, location),
        spec_course(a) == spec_course(b),
    ensures
        r == Ok::<usize, ParseError>(c as usize),
        spec_course(a2) == spec_course(b2),
{
    assert(a.style.layout == b.style.layout);
    if kind == ParamKind::Font {
        let f = choose|f: FontFamily| f@ == spec_trimmed(s, va, vb) && #[trigger] spec_directive_applied(a, a2, Directive::Font(f));
        let g = choose|f: FontFamily| f@ == spec_trimmed(s, va, vb) && #[trigger] spec_directive_applied(b, b2, Directive::Font(f));
        assert(a2.pending_anchors == a.pending_anchors && b2.pending_anchors == b.pending_anchors);
    } else if kind == ParamKind::HighlightStyle {
        let ps = spec_svg_pairs(s.subrange(va, vb), 0)->Ok_0;
        let la = choose|l: SvgAttrList| spec_pair_models(l.pairs@) == ps && #[trigger] spec_directive_applied(a, a2, Directive::HighlightStyle(l));
        let lb = choose|l: SvgAttrList| spec_pair_models(l.pairs@) == ps && #[trigger] spec_directive_applied(b, b2, Directive::HighlightStyle(l));
        assert(a2.pending_anchors == a.pending_anchors && b2.pending_anchors == b.pending_anchors);
    } else {
        let d = spec_directive(kind, s, va, vb)->Some_0;
        lemma_applied_course(a, a2, b, b2, d);
    }
}

/// Applying one value directive to two states with the same course
/// leaves states with the same course.
proof fn lemma_applied_course(a: Parser, a2: Parser, b: Parser, b2: Parser, d: Directive)
    requires
        spec_directive_applied(a, a2, d),
        spec_directive_applied(b, b2, d),
        spec_course(a) == spec_course(b),
    ensures
        spec_course(a2) == spec_course(b2),
{
    assert(a.style.layout == b.style.layout);
    assert(a2.pending_anchors == a.pending_anchors && a2.pending_arrows == a.pending_arrows);
    assert(b2.pending_anchors == b.pending_anchors && b2.pending_arrows == b.pending_arrows);
}

/// Two reads of one source from states with the same course go the same
/// way: line by line they start at the same source lines and reach states
/// with the same course.
proof fn lemma_reads_agree(
    s: Seq<char>,
    lines: Seq<(usize, usize)>,
    ts: Seq<Parser>,
    tm: Seq<int>,
    ps: Seq<Parser>,
    pm: Seq<int>,
    k: int,
)
    requires
        spec_lines_read(s, lines, ts, tm),
        spec_lines_read(s, lines, ps, pm),
        spec_course(ts[0]) == spec_course(ps[0]),
        lines.len() <= usize::MAX,
        0 <= k < ts.len(),
        k < ps.len(),
    ensures
        tm[k] == pm[k],
        spec_course(ts[k]) == spec_course(ps[k]),
    decreases k,
{
    if k > 0 {
        lemma_reads_agree(s, lines, ts, tm, ps, pm, k - 1);
        let i = k - 1;
        assert(ts[i] == ts[i] && ts[k] == ts[k] && tm[i] == tm[i] && tm[k] == tm[k]);
        assert(ps[i] == ps[i] && ps[k] == ps[k] && pm[i] == pm[i] && pm[k] == pm[k]);
        assert(0 < tm[k] - tm[i] <= usize::MAX);
        assert(0 < pm[k] - pm[i] <= usize::MAX);
        lemma_step_same_course(ts[i], ts[k], tm[k] - tm[i], ps[i], ps[k], Ok((pm[k] - pm[i]) as usize), s, lines, tm[i]);
    }
}

/// A read of the whole source from a state forbids any other read from a
/// state with the same course to stop at a failing line.
pub proof fn lemma_no_failing_line(
    s: Seq<char>,
    lines: Seq<(usize, usize)>,
    ts: Seq<Parser>,
    tm: Seq<int>,
    ps: Seq<Parser>,
    pm: Seq<int>,
    e: ParseError,
)
    requires
        spec_line_trace(s, lines, ts, tm),
        spec_lines_read(s, lines, ps, pm),
        spec_course(ts[0]) == spec_course(ps[0]),
        lines.len() <= usize::MAX,
    ensures
        pm.last() < lines.len() ==> !spec_line_error(ps.last(), e, s, lines, pm.last()),
{
    if !(pm.last() < lines.len() && spec_line_error(ps.last(), e, s, lines, pm.last())) {
        return;
    }
    let kp = ps.len() - 1;
    if kp >= ts.len() {
        let kt = ts.len() - 1;
        lemma_reads_agree(s, lines, ts, tm, ps, pm, kt);
        lemma_marks_increase(ps, pm, kt, kp);
    } else {
        lemma_reads_agree(s, lines, ts, tm, ps, pm, kp);
        assert(kp + 1 < ts.len());
        let after = choose|after: Parser| #[trigger] spec_line_step(ps.last(), after, Err(e), s, lines, pm.last());
        assert(ts[kp] == ts[kp] && ts[kp + 1] == ts[kp + 1] && tm[kp] == tm[kp] && tm[kp + 1] == tm[kp + 1]);
        assert(0 < tm[kp + 1] - tm[kp] <= usize::MAX);
        lemma_step_same_course(ts[kp], ts[kp + 1], tm[kp + 1] - tm[kp], ps[kp], after, Err(e), s, lines, tm[kp]);
    }
}

/// Two reads of the whole source from states with the same course end in
/// states with the same course.
pub proof fn lemma_full_reads_agree(
    s: Seq<char>,
    lines: Seq<(usize, usize)>,
    ts: Seq<Parser>,
    tm: Seq<int>,
    ps: Seq<Parser>,
    pm: Seq<int>,
)
    requires
        spec_line_trace(s, lines, ts, tm),
        spec_line_trace(s, lines, ps, pm),
        spec_course(ts[0]) == spec_course(ps[0]),
        lines.len() <= usize::MAX,
    ensures
        spec_course(ts.last()) == spec_course(ps.last()),
{
    if ts.len() < ps.len() {
        let kt = ts.len() - 1;
        lemma_reads_agree(s, lines, ts, tm, ps, pm, kt);
        lemma_marks_increase(ps, pm, kt, ps.len() - 1);
    } else if ps.len() < ts.len() {
        let kp = ps.len() - 1;
        lemma_reads_agree(s, lines, ts, tm, ps, pm, kp);
        lemma_marks_increase(ts, tm, kp, ts.len() - 1);
    } else {
        lemma_reads_agree(s, lines, ts, tm, ps, pm, ts.len() - 1);
    }
}

/// The marks of a read grow strictly.
proof fn lemma_marks_increase(states: Seq<Parser>, marks: Seq<int>, i: int, j: int)
    requires
        states.len() == marks.len(),
        forall|x: int, y: int| #![trigger states[x], states[y]] #![trigger marks[x], marks[y]]
            0 <= x && y == x + 1 && y < states.len() ==> marks[x] < marks[y],
        0 <= i < j < marks.len(),
    ensures
        marks[i] < marks[j],
    decreases j - i,
{
    assert(marks[j - 1] == marks[j - 1] && marks[j] == marks[j]);
    if i < j - 1 {
        lemma_marks_increase(states, marks, i, j - 1);
    }
}

/// Initial states have the same course.
pub proof fn lemma_initial_course(a: Parser, b: Parser)
    requires
        a.is_initial(),
        b.is_initial(),
    ensures
        spec_course(a) == spec_course(b),
{
    assert(spec_pending_keys(a.pending_anchors@) =~= spec_pending_keys(b.pending_anchors@));
    assert(spec_arrow_ends(a.pending_arrows@) =~= spec_arrow_ends(b.pending_arrows@));
}

/// Whether the staged arrows join staged anchors depends on their ends
/// alone.
pub proof fn lemma_resolve_by_ends(a: Seq<PendingArrow>, b: Seq<PendingArrow>, keys: Seq<AnchorKey>)
    requires
        spec_arrow_ends(a) == spec_arrow_ends(b),
    ensures
        spec_arrows_resolve(a, keys) == spec_arrows_resolve(b, keys),
{
    assert(a.len() == spec_arrow_ends(a).len() && b.len() == spec_arrow_ends(b).len());
    if spec_arrows_resolve(a, keys) {
        assert forall|k: int| 0 <= k < b.len() implies {
            &&& keys.contains(spec_end_key(#[trigger] b[k].from))
            &&& keys.contains(spec_end_key(b[k].to))
        } by {
            assert(spec_arrow_ends(a)[k] == spec_arrow_ends(b)[k]);
            assert(keys.contains(spec_end_key(a[k].from)));
        }
    }
    if spec_arrows_resolve(b, keys) {
        assert forall|k: int| 0 <= k < a.len() implies {
            &&& keys.contains(spec_end_key(#[trigger] a[k].from))
            &&& keys.contains(spec_end_key(a[k].to))
        } by {
            assert(spec_arrow_ends(a)[k] == spec_arrow_ends(b)[k]);
            assert(keys.contains(spec_end_key(b[k].from)));
        }
    }
}

/// A signal row takes what was staged for it: the background of `@bg`,
/// the clock of `@clock` and the overline of `@overline` (or
/// `@signal(overline)`), and the layout in force; the staging is then
/// cleared.
pub proof fn lemma_signal_row_takes_staged(old: Parser, new: Parser, c: usize, s: Seq<char>, lines: Seq<(usize, usize)>, i: int)
    requires
        spec_line_step(old, new, Ok(c), s, lines, i),
        spec_line_class(s, lines[i].0 as int, lines[i].1 as int) is Signal,
    ensures
        new.lines@.len() == old.lines@.len() + 1,
        new.lines@.last().background == old.next_background,
        new.lines@.last().content matches LineContent::Signal(row) && {
            &&& row.decorations == (SignalDecorations { clock: old.next_clock, name_overline: old.next_overline })
            &&& row.layout_params == old.style.layout
        },
        new.next_background is None,
        new.next_clock is None,
        !new.next_overline,
{
    reveal(spec_line_step);
}

/// `@guide_color c` colours the guides and nothing else: the key
/// `guide_color` names it, a valid colour value is read as a directive,
/// and applying that directive sets the guide colour to `c` while the
/// signal colour, the name style and the guide width stay as they were.
pub proof fn lemma_guide_color_sets_guides(s: Seq<char>, start: int, end: int, c: Color, old: Parser, new: Parser)
    requires
        spec_color_value(s, start, end) == Some(c),
        spec_directive_applied(old, new, spec_directive(ParamKind::GuideColor, s, start, end)->Some_0),
    ensures
        spec_param_kind(seq!['g', 'u', 'i', 'd', 'e', '_', 'c', 'o', 'l', 'o', 'r']) == Some(ParamKind::GuideColor),
        spec_directive(ParamKind::GuideColor, s, start, end) is Some,
        new.style.signal.guide.color == c,
        new.style.signal.guide.width == old.style.signal.guide.width,
        new.style.signal.color == old.style.signal.color,
        new.style.label == old.style.label,
{
}

/// `@signal_color c` colours the signal lines and the names, not the
/// guides: the key `signal_color` names it, a valid colour value is read
/// as a directive, and applying that directive sets the signal colour and
/// the name colour to `c` while the guides stay as they were.
pub proof fn lemma_signal_color_sets_signals(s: Seq<char>, start: int, end: int, c: Color, old: Parser, new: Parser)
    requires
        spec_color_value(s, start, end) == Some(c),
        spec_directive_applied(old, new, spec_directive(ParamKind::SignalColor, s, start, end)->Some_0),
    ensures
        spec_param_kind(seq!['s', 'i', 'g', 'n', 'a', 'l', '_', 'c', 'o', 'l', 'o', 'r']) == Some(ParamKind::SignalColor),
        spec_directive(ParamKind::SignalColor, s, start, end) is Some,
        new.style.signal.color == c,
        new.style.label.color == c,
        new.style.signal.guide == old.style.signal.guide,
{
}

/// Whether a parser state holds only well-placed anchors and arrows
/// depends on those two lists alone.
#[verifier::spinoff_prover]
proof fn lemma_staged_same(a: Parser, b: Parser)
    requires
        a.staged_ok(),
        a.pending_anchors@ == b.pending_anchors@,
        a.pending_arrows@ == b.pending_arrows@,
    ensures
        b.staged_ok(),
{
    assert forall|k: int| 0 <= k < b.pending_anchors@.len() implies spec_pos_ok(#[trigger] b.pending_anchors@[k].location) by {
        assert(b.pending_anchors@[k] == a.pending_anchors@[k]);
        assert(spec_pos_ok(a.pending_anchors@[k].location));
    }
    assert forall|k: int| 0 <= k < b.pending_arrows@.len() implies {
        &&& spec_pos_ok(#[trigger] b.pending_arrows@[k].from_location)
        &&& spec_pos_ok(b.pending_arrows@[k].to_location)
    } by {
        assert(b.pending_arrows@[k] == a.pending_arrows@[k]);
        assert(spec_pos_ok(a.pending_arrows@[k].from_location));
    }
}

/// The parser state while lines are read.
pub struct Parser {
    pub style: ChartStyle,
    pub lines: Vec<Line>,
    pub overlays: Vec<TextOverlay>,
    pub pending_anchors: Vec<PendingAnchor>,
    pub pending_arrows: Vec<PendingArrow>,
    /// `@clock(...)` waiting for the next signal row.
    pub next_clock: Option<ClockSpec>,
    /// `@signal(overline)` / `@overline` waiting for the next signal row.
    pub next_overline: bool,
    /// `@bg` waiting for the next row of any kind.
    pub next_background: Option<Color>,
    /// `@titlealign`, for the titles that follow.
    pub title_align: Option<HorizontalAlign>,
    /// `@clockmark_*`, for the clocks that follow.
    pub clockmark: MarkOverrides,
    pub ruler_on: bool,
    pub ruler_color: Color,
}

impl Parser {
    /// Every staged anchor and arrow carries a real source position.
    pub open spec fn staged_ok(&self) -> bool {
        &&& forall|k: int| 0 <= k < self.pending_anchors@.len() ==> spec_pos_ok(#[trigger] self.pending_anchors@[k].location)
        &&& forall|k: int| 0 <= k < self.pending_arrows@.len() ==> {
            &&& spec_pos_ok(#[trigger] self.pending_arrows@[k].from_location)
            &&& spec_pos_ok(self.pending_arrows@[k].to_location)
        }
    }

    /// The state before any line is read: nothing staged or written, the
    /// default style, the ruler on in grey.
    pub open spec fn is_initial(&self) -> bool {
        &&& self.lines@.len() == 0
        &&& self.overlays@.len() == 0
        &&& self.pending_anchors@.len() == 0
        &&& self.pending_arrows@.len() == 0
        &&& self.style.is_default_style()
        &&& self.next_clock is None
        &&& !self.next_overline
        &&& self.next_background is None
        &&& self.title_align is None
        &&& self.clockmark.position is None && self.clockmark.height is None
        &&& self.clockmark.width is None && self.clockmark.color is None
        &&& self.ruler_on
        &&& self.ruler_color == (Color { r: 160, g: 160, b: 160, a: 255 })
    }

    pub fn new() -> (p: Parser)
        ensures
            p.is_initial(),
            spec_rows_paired(p.lines@),
            p.staged_ok(),
    {
        Parser {
            style: ChartStyle::default_style(),
            lines: Vec::new(),
            overlays: Vec::new(),
            pending_anchors: Vec::new(),
            pending_arrows: Vec::new(),
            next_clock: None,
            next_overline: false,
            next_background: None,
            title_align: None,
            clockmark: MarkOverrides::none(),
            ruler_on: true,
            ruler_color: Color::ruler_default(),
        }
    }

    /// Reads every line of `src`.
    pub fn scan_all(&mut self, src: &Source) -> (r: Result<(), ParseError>)
        requires
            spec_rows_paired(old(self).lines@),
            old(self).staged_ok(),
            src.wf(),
        ensures
            r matches Err(e) ==> spec_pos_ok(e.location),
            spec_rows_paired(final(self).lines@),
            final(self).staged_ok(),
            src.all_blank() ==> r is Ok && *final(self) == *old(self),
            r is Ok ==> exists|states: Seq<Parser>, marks: Seq<int>| #[trigger] spec_line_trace(src.chars@, src.lines@, states, marks)
                && states[0] == *old(self) && states.last() == *final(self),
            r matches Err(e) ==> exists|states: Seq<Parser>, marks: Seq<int>| #[trigger] spec_lines_read(src.chars@, src.lines@, states, marks)
                && states[0] == *old(self) && marks.last() < src.lines@.len()
                && spec_line_step(states.last(), *final(self), Err(e), src.chars@, src.lines@, marks.last()),
    {
        let n = src.lines.len();
        let mut index: usize = 0;
        let ghost mut states: Seq<Parser> = seq![*self];
        let ghost mut marks: Seq<int> = seq![0int];
        while index < n
            invariant
                src.wf(),
                n == src.lines@.len(),
                index <= n,
                spec_rows_paired(self.lines@),
                self.staged_ok(),
                src.all_blank() ==> *self == *old(self),
                states.len() == marks.len(),
                marks.len() >= 1,
                marks[0] == 0,
                marks.last() == index,
                forall|k: int| 0 <= k < marks.len() ==> 0 <= #[trigger] marks[k] <= n,
                states[0] == *old(self),
                states.last() == *self,
                forall|i: int, j: int| #![trigger states[i], states[j]] #![trigger marks[i], marks[j]] 0 <= i && j == i + 1 && j < states.len() ==> {
                    &&& marks[i] < marks[j]
                    &&& spec_line_step(states[i], states[j], Ok((marks[j] - marks[i]) as usize), src.chars@, src.lines@, marks[i])
                },
            decreases n - index,
        {
            let ghost prev = *self;
            let step = self.scan_line(src, index);
            let consumed = match step {
                Ok(c) => c,
                Err(e) => {
                    assert(spec_lines_read(src.chars@, src.lines@, states, marks));
                    return Err(e);
                },
            };
            proof {
                let old_states = states;
                let old_marks = marks;
                let k = old_states.len() - 1;
                states = old_states.push(*self);
                marks = old_marks.push(index + consumed);
                assert forall|i: int, j: int| #![trigger states[i], states[j]] #![trigger marks[i], marks[j]] 0 <= i && j == i + 1 && j < states.len() implies {
                    &&& marks[i] < marks[j]
                    &&& spec_line_step(states[i], states[j], Ok((marks[j] - marks[i]) as usize), src.chars@, src.lines@, marks[i])
                } by {
                    if j < old_states.len() {
                        assert(states[i] == old_states[i] && states[j] == old_states[j]);
                        assert(marks[i] == old_marks[i] && marks[j] == old_marks[j]);
                        assert(old_states[i] == old_states[i] && old_states[j] == old_states[j]);
                    } else {
                        assert(i == k);
                        assert(states[i] == prev && states[j] == *self);
                        assert(marks[j] - marks[i] == consumed);
                    }
                }
            }
            index = index + consumed;
        }
        assert(spec_line_trace(src.chars@, src.lines@, states, marks));
        Ok(())
    }

    /// Reads the logical line that starts at source line `index` and
    /// returns how many source lines it took.
    fn scan_line(&mut self, src: &Source, index: usize) -> (r: Result<usize, ParseError>)
        requires
            spec_rows_paired(old(self).lines@),
            old(self).staged_ok(),
            src.wf(),
            index < src.lines@.len(),
        ensures
            r matches Err(e) ==> spec_pos_ok(e.location),
            spec_rows_paired(final(self).lines@),
            final(self).staged_ok(),
            r matches Ok(c) ==> c >= 1 && index + c <= src.lines@.len(),
            spec_line_step(*old(self), *final(self), r, src.chars@, src.lines@, index as int),
            spec_line_class(src.chars@, src.lines@[index as int].0 as int, src.lines@[index as int].1 as int) is Blank
                ==> r == Ok::<usize, ParseError>(1) && *final(self) == *old(self),
    {
        reveal(spec_line_step);
        let chars = &src.chars;
        let n = src.lines.len();
        let (rs, re) = src.lines[index];
        let line = line_number(index);
        let lead = leading_space_tab(chars, rs, re);
        let location = SourceLocation::new(line, column_of(lead));
        let (first, _) = trim_span(chars, rs, re);
        if first < re && chars[first] == '"' {
            return self.parse_quoted_signal_line(src, index, first);
        }
        let cut = strip_inline_comment(chars, rs, re);
        let (a, b) = trim_span(chars, rs, cut);
        if a == b {
            return Ok(1);
        }
        if chars[a] == '@' {
            return self.parse_directive_line(src, index, a + 1, b, location, rs);
        }
        if chars[a] == '%' {
            self.parse_overlay_line(chars, a + 1, b, location, rs)?;
            return Ok(1);
        }
        self.parse_unquoted_signal_line(chars, a, b, location, rs)?;
        Ok(1)
    }

    /// `@->` arrows and `@name ...` directives.
    #[verifier::rlimit(50)]
    #[verifier::spinoff_prover]
    fn parse_directive_line(
        &mut self,
        src: &Source,
        index: usize,
        ra: usize,
        rb: usize,
        location: SourceLocation,
        raw_start: usize,
    ) -> (r: Result<usize, ParseError>)
        requires
            spec_pos_ok(location),
            spec_rows_paired(old(self).lines@),
            old(self).staged_ok(),
            src.wf(),
            index < src.lines@.len(),
            raw_start <= ra <= rb <= src.chars@.len(),
        ensures
            r matches Err(e) ==> spec_pos_ok(e.location),
            spec_rows_paired(final(self).lines@),
            final(self).staged_ok(),
            r matches Ok(c) ==> c >= 1 && index + c <= src.lines@.len(),
            spec_directive_line(*old(self), *final(self), r, src.chars@, src.lines@, index as int, ra as int, rb as int,
                location, raw_start as int),
    {
        let chars = &src.chars;
        if rb - ra >= 2 && chars[ra] == '-' && chars[ra + 1] == '>' {
            return self.stage_arrow(src, index, ra + 2, rb, location);
        }
        let mut head_end = ra;
        while head_end < rb && chars[head_end] != '(' && !is_space_or_tab(chars[head_end])
            invariant
                ra <= head_end <= rb <= chars@.len(),
                spec_head_end(chars@, ra as int, rb as int) == spec_head_end(chars@, head_end as int, rb as int),
            decreases rb - head_end,
        {
            head_end = head_end + 1;
        }
        let (ha, hb) = trim_space_tab(chars, ra, head_end);
        let (aa, ab) = trim_space_tab(chars, head_end, rb);
        let arg_location = if aa == ab {
            location
        } else {
            SourceLocation::new(location.line, column_of(aa - raw_start))
        };
        proof {
            assert(['t', 'i', 't', 'l', 'e']@ =~= seq!['t', 'i', 't', 'l', 'e']);
            assert(['s', 'k', 'i', 'p']@ =~= seq!['s', 'k', 'i', 'p']);
            assert(['c', 'l', 'o', 'c', 'k']@ =~= seq!['c', 'l', 'o', 'c', 'k']);
            assert(['s', 'i', 'g', 'n', 'a', 'l']@ =~= seq!['s', 'i', 'g', 'n', 'a', 'l']);
            assert(['o', 'v', 'e', 'r', 'l', 'i', 'n', 'e']@ =~= seq!['o', 'v', 'e', 'r', 'l', 'i', 'n', 'e']);
        }
        if span_eq(chars, ha, hb, &['t', 'i', 't', 'l', 'e']) {
            self.parse_title(src, index, aa, ab, arg_location)
        } else if span_eq(chars, ha, hb, &['s', 'k', 'i', 'p']) {
            self.parse_skip(chars, aa, ab, arg_location)?;
            Ok(1)
        } else if span_eq(chars, ha, hb, &['c', 'l', 'o', 'c', 'k']) {
            self.parse_clock(chars, aa, ab, arg_location)?;
            Ok(1)
        } else if span_eq(chars, ha, hb, &['s', 'i', 'g', 'n', 'a', 'l']) {
            self.parse_signal_directive(src, index, aa, ab, arg_location)
        } else if span_eq(chars, ha, hb, &['o', 'v', 'e', 'r', 'l', 'i', 'n', 'e']) {
            self.parse_overline(chars, aa, ab, arg_location)?;
            Ok(1)
        } else {
            let d = parse_directive(chars, ha, hb, aa, ab, arg_location, location)?;
            self.apply_directive(d);
            Ok(1)
        }
    }

    /// `@-> (...)`: reads the arrow and stages it for the anchor check.
    fn stage_arrow(&mut self, src: &Source, index: usize, args_start: usize, args_end: usize, location: SourceLocation) -> (r: Result<usize, ParseError>)
        requires
            spec_pos_ok(location),
            old(self).staged_ok(),
            src.wf(),
            index < src.lines@.len(),
            args_start <= args_end <= src.chars@.len(),
        ensures
            r matches Err(e) ==> spec_pos_ok(e.location),
            final(self).staged_ok(),
            r matches Ok(c) ==> c >= 1 && index + c <= src.lines@.len(),
            r is Err ==> *final(self) == *old(self),
            r matches Ok(c) ==> spec_arrow_read(src.chars@, src.lines@, index as int, args_start as int, args_end as int,
                old(self).style.signal.color, old(self).style.signal.width, old(self).style.canvas.font,
                final(self).pending_arrows@.last(), c as int),
            spec_arrow_accepted(src.chars@, src.lines@, index as int, args_start as int, args_end as int) <==> r is Ok,
            r matches Err(e) ==> spec_arrow_error(src.chars@, src.lines@, index as int, args_start as int, args_end as int, location, e),
            r is Ok ==> {
                &&& spec_arrow_head_ok(src.chars@, args_start as int, args_end as int)
                &&& *final(self) == (Parser { pending_arrows: final(self).pending_arrows, ..*old(self) })
                &&& final(self).pending_arrows@.len() == old(self).pending_arrows@.len() + 1
                &&& final(self).pending_arrows@.subrange(0, old(self).pending_arrows@.len() as int) == old(self).pending_arrows@
            },
    {
        let (arrow, consumed) = parse_arrow(
            src,
            index,
            args_start,
            args_end,
            location,
            self.style.signal.color,
            self.style.signal.width,
            &self.style.canvas.font,
        )?;
        let ghost before = self.pending_arrows@;
        self.pending_arrows.push(arrow);
        assert(self.pending_arrows@.subrange(0, before.len() as int) =~= before);
        assert forall|k: int| 0 <= k < self.pending_arrows@.len() implies {
            &&& spec_pos_ok(#[trigger] self.pending_arrows@[k].from_location)
            &&& spec_pos_ok(self.pending_arrows@[k].to_location)
        } by {
            if k < before.len() {
                assert(self.pending_arrows@[k] == before[k]);
            }
        }
        Ok(consumed)
    }

    /// Rejects a layout whose step is not wider than its slant.
    fn check_step_slant(&self, location: SourceLocation) -> (r: Result<(), ParseError>)
        requires
            spec_pos_ok(location),
        ensures
            r matches Err(e) ==> spec_pos_ok(e.location),
            r is Ok <==> self.style.layout.step.micros > self.style.layout.slant.micros,
            r matches Err(e) ==> e.location == location && e.length == 1
                && e.kind == ParseErrorKind::InvalidStepSlant(self.style.layout.step, self.style.layout.slant),
    {
        let step = self.style.layout.step;
        let slant = self.style.layout.slant;
        if step.micros <= slant.micros {
            return Err(ParseError::new(location, ParseErrorKind::InvalidStepSlant(step, slant)));
        }
        Ok(())
    }

    /// Applies one value directive.
    fn apply_directive(&mut self, d: Directive)
        requires
            old(self).staged_ok(),
        ensures
            final(self).staged_ok(),
            spec_directive_applied(*old(self), *final(self), d),
    {
        let ghost start = *self;
        match d {
            Directive::FontSize(v) => self.style.set_font_size(v),
            Directive::LineHeight(v) => self.style.set_line_height_ratio(v),
            Directive::CapWidth(v) => self.style.set_capwidth(v),
            Directive::NamePad(v) => self.style.set_name_padding(v),
            Directive::Scale(v) => self.style.set_scale(v),
            Directive::PageMargin(v) => self.style.set_page_margin(v),
            Directive::Step(v) => self.style.set_step(v),
            Directive::Slant(v) => self.style.set_slant(v),
            Directive::SignalGap(v) => self.style.set_h_space(v),
            Directive::Font(v) => self.style.set_font_family(v),
            Directive::SignalColor(v) => self.style.set_signal_color(v),
            Directive::SignalWidth(v) => self.style.set_signal_width(v),
            Directive::GuideColor(v) => self.style.set_guide_color(v),
            Directive::GuideWidth(v) => self.style.set_guide_width(v),
            Directive::Bg(v) => self.next_background = v,
            Directive::BgColor0(v) => self.style.set_bgcolor0(v),
            Directive::BgColor1(v) => self.style.set_bgcolor1(v),
            Directive::HighlightStyle(v) => self.style.set_highlight_attrs(v),
            Directive::DontcareColor(v) => self.style.set_dontcare_color(v),
            Directive::TitleAlign(v) => self.title_align = Some(v),
            Directive::ClockmarkPosition(v) => self.clockmark = MarkOverrides { position: Some(v), ..self.clockmark },
            Directive::ClockmarkHeight(v) => self.clockmark = MarkOverrides { height: Some(v), ..self.clockmark },
            Directive::ClockmarkWidth(v) => self.clockmark = MarkOverrides { width: Some(v), ..self.clockmark },
            Directive::ClockmarkColor(v) => self.clockmark = MarkOverrides { color: Some(v), ..self.clockmark },
            Directive::OverlineGap(v) => self.style.set_overline_gap(v),
            Directive::OverlineThickness(v) => self.style.set_overline_thickness(v),
            Directive::Ruler(v) => self.ruler_on = v,
            Directive::RulerColor(v) => self.ruler_color = v,
        }
        proof {
            lemma_staged_same(start, *self);
        }
    }

    /// `@title text` or `@title "text"` (the quoted form may span lines).
    fn parse_title(&mut self, src: &Source, index: usize, aa: usize, ab: usize, location: SourceLocation) -> (r: Result<usize, ParseError>)
        requires
            spec_pos_ok(location),
            spec_rows_paired(old(self).lines@),
            old(self).staged_ok(),
            src.wf(),
            index < src.lines@.len(),
            aa <= ab <= src.chars@.len(),
        ensures
            r matches Err(e) ==> spec_pos_ok(e.location),
            spec_rows_paired(final(self).lines@),
            final(self).staged_ok(),
            r matches Ok(c) ==> c >= 1 && index + c <= src.lines@.len(),
            spec_title_directive(*old(self), *final(self), r, src.chars@, src.lines@, index as int, aa as int, ab as int, location),
    {
        let chars = &src.chars;
        let (t0, t1) = trim_span(chars, aa, ab);
        if t0 == t1 {
            return Err(ParseError::new(location, ParseErrorKind::TitleRequiresArgument));
        }
        let mut consumed: usize = 1;
        let mut text_location = location;
        let text: Vec<char> = if chars[t0] == '"' {
            let token = collect_quoted(src, index, t0 + 1, t1, location)?;
            consumed = token.consumed_lines;
            text_location = location.shifted(1);
            token.text
        } else {
            sub_vec(chars, t0, t1)
        };
        let ghost quoted = chars@[t0 as int] == '"';
        assert(!quoted ==> text@ == chars@.subrange(t0 as int, t1 as int));
        let user_text = match UserText::parse_all(&text) {
            Ok(t) => t,
            Err(e) => {
                proof {
                    let k = choose|k: int| 0 <= k < text@.len() && spec_is_forbidden(#[trigger] text@[k]);
                    if !quoted {
                        assert(text@[k] == chars@[t0 + k]);
                        assert(spec_is_forbidden(chars@[t0 + k]));
                    }
                }
                let offset = match e.char_offset() {
                    Some(o) => o,
                    None => 0,
                };
                return Err(ParseError::with_length(text_location.shifted(offset), 1, ParseErrorKind::InvalidText(e)));
            },
        };
        proof {
            if !quoted {
                assert forall|k: int| t0 <= k < t1 implies !spec_is_forbidden(#[trigger] chars@[k]) by {
                    assert(chars@[k] == text@[k - t0]);
                }
            }
        }
        self.push_title_row(user_text);
        Ok(consumed)
    }

    /// `@skip(amount)`: an amount of zero adds no row.
    fn parse_skip(&mut self, chars: &[char], aa: usize, ab: usize, location: SourceLocation) -> (r: Result<(), ParseError>)
        requires
            spec_pos_ok(location),
            spec_rows_paired(old(self).lines@),
            old(self).staged_ok(),
            aa <= ab <= chars@.len(),
        ensures
            r matches Err(e) ==> spec_pos_ok(e.location),
            spec_rows_paired(final(self).lines@),
            final(self).staged_ok(),
            spec_skip_directive(*old(self), *final(self), r, chars@, aa as int, ab as int, location),
    {
        match strip_parens(chars, aa, ab) {
            None => {
                let (t0, t1) = trim_span(chars, aa, ab);
                let length = clamp_u32(t1 - t0);
                Err(ParseError::with_length(location, if length == 0 { 1 } else { length }, ParseErrorKind::InvalidSkipSyntax))
            },
            Some((ia, ib)) => {
                let (ta, tb) = trim_span(chars, ia, ib);
                let amount_location = location.shifted(clamp_u32(ta - aa));
                match skip_amount(chars, ta, tb, amount_location)? {
                    Some(length) => self.push_skip_row(length),
                    None => {},
                }
                Ok(())
            },
        }
    }

    /// `@clock(...)`, optionally followed by the clock's own signal line.
    fn parse_clock(&mut self, chars: &[char], aa: usize, ab: usize, location: SourceLocation) -> (r: Result<(), ParseError>)
        requires
            spec_pos_ok(location),
            spec_rows_paired(old(self).lines@),
            old(self).staged_ok(),
            aa <= ab <= chars@.len(),
        ensures
            r matches Err(e) ==> spec_pos_ok(e.location),
            spec_rows_paired(final(self).lines@),
            final(self).staged_ok(),
            spec_clock_directive(*old(self), *final(self), r, chars@, aa as int, ab as int, location),
    {
        self.check_step_slant(location)?;
        let (t0, t1) = trim_space_tab(chars, aa, ab);
        let mut inner_start = t0;
        let mut inner_end = t0;
        let mut inner_location = location;
        let mut tail = (t0, t0);
        if t0 < t1 {
            if chars[t0] != '(' {
                inner_location = location.shifted(clamp_u32(t0 - aa));
                tail = (t0, t1);
            } else {
                inner_location = location.shifted(clamp_u32(t0 - aa)).shifted(1);
                match first_index(chars, t0 + 1, t1, ')') {
                    None => {
                        return Err(ParseError::with_length(
                            location,
                            clamp_u32(t1 - t0),
                            ParseErrorKind::ClockInvalidAttribute(string_of(chars, t0, t1)),
                        ));
                    },
                    Some(c) => {
                        inner_start = t0 + 1;
                        inner_end = c;
                        tail = trim_space_tab(chars, c + 1, t1);
                    },
                }
            }
        }
        let spec = parse_clock_spec(
            chars,
            inner_start,
            inner_end,
            inner_location,
            &self.clockmark,
            self.style.layout.step,
            self.style.signal.color,
        )?;
        self.next_clock = Some(spec);
        proof {
            lemma_staged_same(*old(self), *self);
        }
        if tail.0 < tail.1 {
            self.parse_unquoted_signal_line(chars, tail.0, tail.1, location, tail.0)?;
        }
        Ok(())
    }

    /// `@signal(overline)`, optionally followed by the row it decorates.
    fn parse_signal_directive(&mut self, src: &Source, index: usize, aa: usize, ab: usize, location: SourceLocation) -> (r: Result<usize, ParseError>)
        requires
            spec_pos_ok(location),
            spec_rows_paired(old(self).lines@),
            old(self).staged_ok(),
            src.wf(),
            index < src.lines@.len(),
            aa <= ab <= src.chars@.len(),
        ensures
            r matches Err(e) ==> spec_pos_ok(e.location),
            spec_rows_paired(final(self).lines@),
            final(self).staged_ok(),
            r matches Ok(c) ==> c >= 1 && index + c <= src.lines@.len(),
            spec_signal_directive(*old(self), *final(self), r, src.chars@, src.lines@, index as int, aa as int, ab as int, location),
    {
        self.check_step_slant(location)?;
        let chars = &src.chars;
        let (t0, t1) = trim_space_tab(chars, aa, ab);
        if t0 == t1 {
            return Ok(1);
        }
        let close = if chars[t0] == '(' {
            first_index(chars, t0 + 1, t1, ')')
        } else {
            None
        };
        let c = match close {
            Some(c) => c,
            None => {
                return Err(ParseError::with_length(
                    location,
                    clamp_u32(t1 - t0),
                    ParseErrorKind::UnknownSignalAttribute(string_of(chars, t0, t1)),
                ));
            },
        };
        let inner_location = location.shifted(clamp_u32(t0 - aa)).shifted(1);
        self.stage_signal_attributes(chars, t0 + 1, c, inner_location)?;
        let (u0, u1) = trim_space_tab(chars, c + 1, t1);
        if u0 == u1 {
            return Ok(1);
        }
        self.parse_inline_signal_row(src, index, u0, u1, location)
    }

    /// The attributes of `@signal(...)`: `overline`, at most once.
    fn stage_signal_attributes(&mut self, chars: &[char], ia: usize, ib: usize, inner_location: SourceLocation) -> (r: Result<(), ParseError>)
        requires
            old(self).staged_ok(),
            spec_pos_ok(inner_location),
            ia <= ib <= chars@.len(),
        ensures
            r matches Err(e) ==> spec_pos_ok(e.location),
            final(self).lines == old(self).lines,
            final(self).pending_anchors == old(self).pending_anchors,
            final(self).staged_ok(),
            final(self).pending_arrows == old(self).pending_arrows,
            match spec_signal_attrs(chars@, ia as int, ib as int, false) {
                Ok(seen) => r is Ok && *final(self) == (Parser { next_overline: old(self).next_overline || seen, ..*old(self) }),
                Err((lead, ta, tb)) => r matches Err(e) && {
                    &&& e.kind matches ParseErrorKind::UnknownSignalAttribute(t) && t@ == chars@.subrange(ta, tb)
                    &&& e.location == spec_shifted(inner_location, spec_clamp_u32(lead - ia))
                    &&& e.length == spec_clamp_u32(tb - ta)
                },
            },
    {
        let mut seen = false;
        let mut pos = ia;
        let mut done = false;
        while !done
            invariant
                ia <= pos <= ib <= chars@.len(),
                spec_pos_ok(inner_location),
                self.lines == old(self).lines,
                self.pending_anchors == old(self).pending_anchors,
                self.pending_arrows == old(self).pending_arrows,
                self.staged_ok(),
                *self == (Parser { next_overline: old(self).next_overline || seen, ..*old(self) }),
                !done ==> spec_signal_attrs(chars@, ia as int, ib as int, false) == spec_signal_attrs(chars@, pos as int, ib as int, seen),
                done ==> spec_signal_attrs(chars@, ia as int, ib as int, false) == Ok::<bool, (int, int, int)>(seen),
            decreases ib - pos + (if done { 0int } else { 1int }),
        {
            let seg_end = match first_index(chars, pos, ib, ',') {
                Some(c) => c,
                None => ib,
            };
            let lead = leading_space_tab(chars, pos, seg_end);
            let (ta, tb) = trim_span(chars, pos, seg_end);
            let token_location = inner_location.shifted(clamp_u32(pos + lead - ia));
            assert(['o', 'v', 'e', 'r', 'l', 'i', 'n', 'e']@ =~= seq!['o', 'v', 'e', 'r', 'l', 'i', 'n', 'e']);
            if ta < tb {
                if span_eq(chars, ta, tb, &['o', 'v', 'e', 'r', 'l', 'i', 'n', 'e']) && !seen {
                    seen = true;
                    self.next_overline = true;
                } else {
                    return Err(ParseError::with_length(
                        token_location,
                        clamp_u32(tb - ta),
                        ParseErrorKind::UnknownSignalAttribute(string_of(chars, ta, tb)),
                    ));
                }
            }
            if seg_end >= ib {
                done = true;
            } else {
                pos = seg_end + 1;
            }
        }
        Ok(())
    }

    /// The row written after `@signal(...)` on the same line.
    fn parse_inline_signal_row(&mut self, src: &Source, index: usize, u0: usize, u1: usize, location: SourceLocation) -> (r: Result<usize, ParseError>)
        requires
            spec_pos_ok(location),
            spec_rows_paired(old(self).lines@),
            old(self).staged_ok(),
            src.wf(),
            index < src.lines@.len(),
            u0 < u1 <= src.chars@.len(),
        ensures
            r matches Err(e) ==> spec_pos_ok(e.location),
            spec_rows_paired(final(self).lines@),
            final(self).staged_ok(),
            r matches Ok(c) ==> c >= 1 && index + c <= src.lines@.len(),
            spec_inline_row(*old(self), *final(self), r, src.chars@, src.lines@, index as int, u0 as int, u1 as int, location),
    {
        let chars = &src.chars;
        if chars[u0] == '"' {
            let token = collect_quoted(src, index, u0 + 1, u1, location)?;
            let name = signal_name_or_error(&token.text, location)?;
            let cut = strip_inline_comment(chars, token.tail_start, token.tail_end);
            let (x, y) = trim_span(chars, token.tail_start, cut);
            self.parse_waveform_and_push_row(name, chars, x, y, location)?;
            Ok(token.consumed_lines)
        } else {
            self.parse_unquoted_signal_line(chars, u0, u1, location, u0)?;
            Ok(1)
        }
    }

    /// `@overline`, which takes no argument.
    fn parse_overline(&mut self, chars: &[char], aa: usize, ab: usize, location: SourceLocation) -> (r: Result<(), ParseError>)
        requires
            old(self).staged_ok(),
            spec_pos_ok(location),
            aa <= ab <= chars@.len(),
        ensures
            r matches Err(e) ==> spec_pos_ok(e.location),
            final(self).lines == old(self).lines,
            final(self).pending_anchors == old(self).pending_anchors,
            final(self).staged_ok(),
            final(self).pending_arrows == old(self).pending_arrows,
            r is Err ==> *final(self) == *old(self),
            ({
                let t = spec_trim(chars@, aa as int, ab as int);
                &&& r is Ok <==> t.0 == t.1
                &&& t.0 == t.1 ==> r is Ok && *final(self) == (Parser { next_overline: true, ..*old(self) })
                &&& t.0 < t.1 ==> (r matches Err(e) && e.location == spec_shifted(location, spec_clamp_u32(t.0 - aa))
                    && e.length == spec_clamp_u32(t.1 - t.0)
                    && (e.kind matches ParseErrorKind::InvalidOverlineSyntax(x) && x@ == chars@.subrange(t.0, t.1)))
            }),
    {
        let (t0, t1) = trim_span(chars, aa, ab);
        if t0 < t1 {
            return Err(ParseError::with_length(
                location.shifted(clamp_u32(t0 - aa)),
                clamp_u32(t1 - t0),
                ParseErrorKind::InvalidOverlineSyntax(string_of(chars, t0, t1)),
            ));
        }
        self.next_overline = true;
        proof {
            lemma_staged_same(*old(self), *self);
        }
        Ok(())
    }

    /// `% x y text`: text placed at a point of the chart.
    fn parse_overlay_line(&mut self, chars: &[char], ra: usize, rb: usize, location: SourceLocation, raw_start: usize) -> (r: Result<(), ParseError>)
        requires
            old(self).staged_ok(),
            spec_pos_ok(location),
            raw_start <= ra <= rb <= chars@.len(),
        ensures
            r matches Err(e) ==> spec_pos_ok(e.location),
            final(self).lines == old(self).lines,
            final(self).pending_anchors == old(self).pending_anchors,
            final(self).staged_ok(),
            final(self).pending_arrows == old(self).pending_arrows,
            spec_overlay_line(*old(self), *final(self), r is Ok, chars@, ra as int, rb as int),
            r is Err ==> *final(self) == *old(self),
            r matches Err(e) ==> spec_overlay_error(chars@, ra as int, rb as int, location, raw_start as int, e),
    {
        let (t0, t1) = trim_span(chars, ra, rb);
        let w1 = first_whitespace(chars, t0, t1);
        if w1 >= t1 {
            return Err(ParseError::with_length(location, 0, ParseErrorKind::InvalidOverlayCoordinate(String::new())));
        }
        let y0 = w1 + 1;
        let w2 = first_whitespace(chars, y0, t1);
        let (x0, x1) = trim_span(chars, w2, w2);
        let text = if w2 < t1 {
            trim_span(chars, w2 + 1, t1)
        } else {
            (x0, x1)
        };
        let x = overlay_coordinate(chars, t0, w1, location, raw_start)?;
        let y = overlay_coordinate(chars, y0, w2, location, raw_start)?;
        let text_location = if text.0 < text.1 {
            location.shifted(clamp_u32(text.0 - raw_start))
        } else {
            location
        };
        let user_text = match UserText::parse(chars, text.0, text.1) {
            Ok(t) => t,
            Err(e) => {
                let offset = match e.char_offset() {
                    Some(o) => o,
                    None => 0,
                };
                return Err(ParseError::with_length(text_location.shifted(offset), 1, ParseErrorKind::InvalidText(e)));
            },
        };
        self.overlays.push(TextOverlay { at: Point { x, y }, text: user_text });
        assert(self.overlays@.subrange(0, self.overlays@.len() - 1) =~= old(self).overlays@);
        proof {
            lemma_staged_same(*old(self), *self);
        }
        Ok(())
    }

    /// `name levels`: a signal row whose name is the first word.
    fn parse_unquoted_signal_line(&mut self, chars: &[char], la: usize, lb: usize, location: SourceLocation, raw_start: usize) -> (r: Result<(), ParseError>)
        requires
            spec_pos_ok(location),
            spec_rows_paired(old(self).lines@),
            old(self).staged_ok(),
            raw_start <= la <= lb <= chars@.len(),
        ensures
            r matches Err(e) ==> spec_pos_ok(e.location),
            spec_rows_paired(final(self).lines@),
            final(self).staged_ok(),
            spec_signal_line(*old(self), *final(self), r is Ok, chars@, la as int, lb as int, location, raw_start as int),
            r matches Err(e) ==> spec_signal_line_error(*old(self), chars@, la as int, lb as int, location, raw_start as int, e),
    {
        let mut sep = la;
        while sep < lb && !is_space_or_tab(chars[sep])
            invariant
                la <= sep <= lb <= chars@.len(),
                spec_first_space_tab(chars@, la as int, lb as int) == spec_first_space_tab(chars@, sep as int, lb as int),
            decreases lb - sep,
        {
            sep = sep + 1;
        }
        let (l0, l1) = trim_space_tab(chars, sep, lb);
        let name_location = location.shifted(clamp_u32(la - raw_start));
        let name = match SignalName::parse(chars, la, sep) {
            Ok(n) => n,
            Err(e) => {
                let (offset, length) = match e.char_offset() {
                    Some(o) => (o, 1u32),
                    None => (0u32, clamp_u32(sep - la)),
                };
                return Err(ParseError::with_length(name_location.shifted(offset), length, ParseErrorKind::InvalidName(e)));
            },
        };
        let levels_location = if l0 == l1 {
            location
        } else {
            SourceLocation::new(location.line, column_of(l0 - raw_start))
        };
        self.parse_waveform_and_push_row(name, chars, l0, l1, levels_location)
    }

    /// `"name" levels`: a quoted (possibly multi-line) name.
    fn parse_quoted_signal_line(&mut self, src: &Source, index: usize, quote: usize) -> (r: Result<usize, ParseError>)
        requires
            spec_rows_paired(old(self).lines@),
            old(self).staged_ok(),
            src.wf(),
            index < src.lines@.len(),
            src.lines@[index as int].0 <= quote < src.lines@[index as int].1,
        ensures
            r matches Err(e) ==> spec_pos_ok(e.location),
            spec_rows_paired(final(self).lines@),
            final(self).staged_ok(),
            r matches Ok(c) ==> c >= 1 && index + c <= src.lines@.len(),
            spec_quoted_signal(*old(self), *final(self), r, src.chars@, src.lines@, index as int, quote + 1,
                src.lines@[index as int].1 as int, SourceLocation { line: spec_clamp_u32(index + 1), column: 1 }),
    {
        let chars = &src.chars;
        let n = src.lines.len();
        let location = SourceLocation::new(line_number(index), 1);
        let (_, re) = src.lines[index];
        let token = collect_quoted(src, index, quote + 1, re, location)?;
        let name = signal_name_or_error(&token.text, location)?;
        let cut = strip_inline_comment(chars, token.tail_start, token.tail_end);
        let (x, y) = trim_span(chars, token.tail_start, cut);
        self.parse_waveform_and_push_row(name, chars, x, y, location)?;
        Ok(token.consumed_lines)
    }

    /// Parses the levels `chars[ls..le]` and appends the signal row.
    fn parse_waveform_and_push_row(&mut self, name: SignalName, chars: &[char], ls: usize, le: usize, location: SourceLocation) -> (r: Result<(), ParseError>)
        requires
            spec_pos_ok(location),
            spec_rows_paired(old(self).lines@),
            old(self).staged_ok(),
            ls <= le <= chars@.len(),
        ensures
            r matches Err(e) ==> spec_pos_ok(e.location),
            spec_rows_paired(final(self).lines@),
            final(self).staged_ok(),
            r is Ok <==> old(self).style.layout.step.micros > old(self).style.layout.slant.micros
                && spec_waveform_elements(chars@, ls as int, le as int, location) is Some,
            r is Ok ==> spec_signal_pushed(*old(self), *final(self), name@, chars@, ls as int, le as int, location)
                && (final(self).lines@.last().content matches LineContent::Signal(row) && row.name == name),
            r is Err ==> *final(self) == *old(self),
            r matches Err(e) ==> {
                let layout = old(self).style.layout;
                if layout.step.micros <= layout.slant.micros {
                    e.kind == ParseErrorKind::InvalidStepSlant(layout.step, layout.slant) && e.location == location && e.length == 1
                } else {
                    spec_waveform_error(chars@, ls as int, le as int, location, e)
                }
            },
    {
        self.check_step_slant(location)?;
        let signal_index = self.lines.len();
        let (elements, anchors) = parse_waveform(chars, ls, le, location, signal_index)?;
        let mut anchors = anchors;
        let ghost anchors_view = anchors@;
        let ghost before = self.pending_anchors@;
        self.pending_anchors.append(&mut anchors);
        assert(self.pending_anchors@.subrange(0, before.len() as int) =~= before);
        assert(self.pending_anchors@.subrange(before.len() as int, self.pending_anchors@.len() as int) =~= anchors_view);
        self.push_signal_row(name, Waveform { elements });
        Ok(())
    }

    /// Ruler lines contributed by a row of `units` units at `step`.
    fn ruler_donations(&self, step: Px, units: u32) -> (v: Vec<RulerContribution>)
        ensures
            v@ == spec_ruler_line(self.ruler_on, step, units as int, self.ruler_color),
    {
        if self.ruler_on {
            let v = RulerContribution::donations(step, units, self.ruler_color);
            assert(v@ =~= spec_ruler_line(self.ruler_on, step, units as int, self.ruler_color));
            v
        } else {
            let v: Vec<RulerContribution> = Vec::new();
            assert(v@ =~= spec_ruler_line(self.ruler_on, step, units as int, self.ruler_color));
            v
        }
    }

    fn take_background(&mut self) -> (b: Option<Color>)
        requires
            old(self).staged_ok(),
        ensures
            b == old(self).next_background,
            final(self).next_background is None,
            *final(self) == (Parser { next_background: None, ..*old(self) }),
            final(self).lines == old(self).lines,
            final(self).pending_anchors == old(self).pending_anchors,
            final(self).staged_ok(),
            final(self).pending_arrows == old(self).pending_arrows,
    {
        let ghost start = *self;
        let b = self.next_background;
        self.next_background = None;
        proof {
            lemma_staged_same(start, *self);
        }
        b
    }

    fn push_title_row(&mut self, text: UserText)
        requires
            spec_rows_paired(old(self).lines@),
            old(self).staged_ok(),
        ensures
            spec_rows_paired(final(self).lines@),
            final(self).staged_ok(),
            spec_row_pushed(*old(self), *final(self)),
            *final(self) == (Parser { lines: final(self).lines, next_background: None, ..*old(self) }),
            final(self).lines@.last().content matches LineContent::Title(row) && {
                &&& row.text == text
                &&& row.style.align == match old(self).title_align {
                    Some(a) => a,
                    None => HorizontalAlign::Center,
                }
                &&& row.style.font.family@ == old(self).style.canvas.font.family@
                &&& row.style.font.size == old(self).style.canvas.font.size
                &&& row.style.color == old(self).style.label.color
            },
            final(self).lines@.last().ruler_contributions@.len() == 0,
    {
        let align = match self.title_align {
            Some(a) => a,
            None => HorizontalAlign::Center,
        };
        let style = TitleStyle::new(self.style.canvas.font.duplicate(), align, self.style.label.color);
        let background = self.take_background();
        let line = Line { content: LineContent::Title(TitleRow { text, style }), background, ruler_contributions: Vec::new() };
        proof {
            lemma_rows_paired_push(self.lines@, line);
        }
        self.lines.push(line);
        assert(self.lines@.subrange(0, self.lines@.len() - 1) =~= old(self).lines@);
    }

    fn push_skip_row(&mut self, length: Length)
        requires
            spec_rows_paired(old(self).lines@),
            old(self).staged_ok(),
        ensures
            spec_rows_paired(final(self).lines@),
            final(self).staged_ok(),
            spec_row_pushed(*old(self), *final(self)),
            *final(self) == (Parser { lines: final(self).lines, next_background: None, ..*old(self) }),
            final(self).lines@.last().content == LineContent::Skip(SkipRow { amount: length }),
            final(self).lines@.last().ruler_contributions@ == spec_ruler_line(old(self).ruler_on, old(self).style.layout.step,
                spec_skip_units(length), old(self).ruler_color),
    {
        let background = self.take_background();
        let units: u32 = match length {
            Length::Lh(r) => if r.micros >= 0 {
                let whole = r.micros / 1_000_000;
                if whole <= 0xffff_ffff { whole as u32 } else { 0xffff_ffffu32 }
            } else {
                0
            },
            Length::Px(_) => 0,
        };
        let ruler = self.ruler_donations(self.style.layout.step, units);
        let line = Line { content: LineContent::Skip(SkipRow { amount: length }), background, ruler_contributions: ruler };
        proof {
            lemma_rows_paired_push(self.lines@, line);
        }
        self.lines.push(line);
        assert(self.lines@.subrange(0, self.lines@.len() - 1) =~= old(self).lines@);
    }

    /// Adds the row `name` with `waveform`: it takes the staged background,
    /// clock and overline, the layout in force and the ruler's share, and
    /// the staging is cleared.
    pub fn push_signal_row(&mut self, name: SignalName, waveform: Waveform)
        requires
            spec_rows_paired(old(self).lines@),
            old(self).staged_ok(),
            spec_transitions_consistent(waveform.elements@),
            spec_transition_kinds_ok(waveform.elements@),
        ensures
            spec_rows_paired(final(self).lines@),
            final(self).staged_ok(),
            spec_row_pushed(*old(self), *final(self)),
            *final(self) == (Parser {
                lines: final(self).lines,
                next_background: None,
                next_clock: None,
                next_overline: false,
                ..*old(self)
            }),
            final(self).lines@.last().content matches LineContent::Signal(row) && {
                &&& row.name == name
                &&& row.waveform == waveform
                &&& row.decorations == (SignalDecorations { clock: old(self).next_clock, name_overline: old(self).next_overline })
                &&& row.layout_params == old(self).style.layout
                &&& row.edge_marks@.len() == 0
                &&& spec_row_style_of(row.style, old(self).style)
            },
            final(self).lines@.last().ruler_contributions@ == spec_ruler_line(old(self).ruler_on, old(self).style.layout.step,
                spec_sat_u32(spec_units_total(waveform.elements@)), old(self).ruler_color),
    {
        let clock = self.next_clock;
        let overline = self.next_overline;
        self.next_clock = None;
        self.next_overline = false;
        let style = SignalRowStyle { signal: self.style.signal.duplicate(), label: self.style.label.duplicate() };
        let layout = self.style.layout;
        let units = waveform.level_units_total();
        let ruler = self.ruler_donations(layout.step, units);
        let row = SignalRow {
            name,
            waveform,
            style,
            decorations: SignalDecorations { clock, name_overline: overline },
            layout_params: layout,
            edge_marks: Vec::new(),
        };
        let background = self.take_background();
        let line = Line { content: LineContent::Signal(Box::new(row)), background, ruler_contributions: ruler };
        proof {
            lemma_rows_paired_push(self.lines@, line);
        }
        self.lines.push(line);
        assert(self.lines@.subrange(0, self.lines@.len() - 1) =~= old(self).lines@);
    }

    /// Widest explicit row, in pixels: rows other than clock rows without
    /// a body of their own.
    fn max_explicit_width(&self) -> (w: Px)
        ensures
            w.micros >= 0,
            w.micros == spec_max_width(self.lines@),
    {
        let mut max = Px::zero();
        let mut k: usize = 0;
        while k < self.lines.len()
            invariant
                k <= self.lines@.len(),
                max.micros >= 0,
                max.micros == spec_max_width(self.lines@.subrange(0, k as int)),
            decreases self.lines.len() - k,
        {
            assert(self.lines@.subrange(0, k + 1).drop_last() =~= self.lines@.subrange(0, k as int));
            if let LineContent::Signal(row) = &self.lines[k].content {
                let auto = row.decorations.clock.is_some() && row.waveform.is_empty();
                if !auto {
                    let width = row.layout_params.step.mul_int(row.waveform.level_units_total());
                    max = max.max(width);
                }
            }
            k = k + 1;
        }
        assert(self.lines@.subrange(0, self.lines@.len() as int) =~= self.lines@);
        max
    }

    /// Extends every clock row to the width of the widest explicit row.
    pub fn expand_clock_signals(&mut self)
        requires
            spec_rows_paired(old(self).lines@),
            old(self).staged_ok(),
        ensures
            spec_rows_paired(final(self).lines@),
            final(self).staged_ok(),
            final(self).lines@.len() == old(self).lines@.len(),
            forall|k: int| 0 <= k < old(self).lines@.len() ==>
                spec_line_expanded(old(self).lines@[k], #[trigger] final(self).lines@[k], spec_max_width(old(self).lines@)),
            *final(self) == (Parser { lines: final(self).lines, ..*old(self) }),
    {
        let max = self.max_explicit_width();
        let ghost original = self.lines@;
        let n = self.lines.len();
        let mut k: usize = 0;
        while k < n
            invariant
                n == self.lines@.len(),
                n == original.len(),
                k <= n,
                max.micros == spec_max_width(original),
                spec_rows_paired(self.lines@),
                self.staged_ok(),
                *self == (Parser { lines: self.lines, ..*old(self) }),
                original == old(self).lines@,
                forall|j: int| 0 <= j < k ==> spec_line_expanded(original[j], #[trigger] self.lines@[j], spec_max_width(original)),
                forall|j: int| k <= j < n ==> #[trigger] self.lines@[j] == original[j],
            decreases n - k,
        {
            let is_clock = match &self.lines[k].content {
                LineContent::Signal(row) => row.decorations.clock.is_some(),
                _ => false,
            };
            let ghost before = self.lines@;
            assert(before[k as int] == original[k as int]);
            if is_clock {
                let line = self.lines.remove(k);
                assert(spec_row_paired(before[k as int]));
                let Line { content, background, ruler_contributions } = line;
                let content = match content {
                    LineContent::Signal(row) => {
                        let mut r = *row;
                        let ghost elements = r.waveform.elements@;
                        let target = target_units(max, r.layout_params.step);
                        r.expand_clock_row(target);
                        proof {
                            if let Some(spec) = r.decorations.clock {
                                if spec_units_total(elements) < target {
                                    lemma_clock_extension_keeps_pairing(
                                        elements,
                                        spec.start,
                                        (target - spec_units_total(elements)) as nat,
                                        spec.pulse,
                                    );
                                }
                            }
                        }
                        LineContent::Signal(Box::new(r))
                    },
                    other => other,
                };
                let new_line = Line { content, background, ruler_contributions };
                assert(spec_row_paired(new_line));
                assert(spec_line_expanded(original[k as int], new_line, spec_max_width(original)));
                self.lines.insert(k, new_line);
                proof {
                    assert forall|j: int| 0 <= j < self.lines@.len() implies #[trigger] spec_row_paired(self.lines@[j]) by {
                        if j != k {
                            assert(self.lines@[j] == before[j]);
                        }
                    }
                    assert forall|j: int| 0 <= j < k + 1 implies spec_line_expanded(original[j], #[trigger] self.lines@[j], spec_max_width(original)) by {
                        if j != k {
                            assert(self.lines@[j] == before[j]);
                        }
                    }
                    assert forall|j: int| k + 1 <= j < n implies #[trigger] self.lines@[j] == original[j] by {
                        assert(self.lines@[j] == before[j]);
                    }
                }
            } else {
                assert(spec_line_expanded(original[k as int], self.lines@[k as int], spec_max_width(original)));
            }
            k = k + 1;
        }
    }

    /// Builds the anchor registry, checks every arrow against it, and
    /// assembles the document.
    pub fn finish(self, input: &str) -> (r: Result<ChartDocument, ParseError>)
        requires
            spec_rows_paired(self.lines@),
            self.staged_ok(),
        ensures
            r matches Err(e) ==> spec_pos_ok(e.location),
            r matches Ok(doc) ==> {
                &&& doc.source.text@ == input@
                &&& spec_rows_paired(doc.lines@)
                &&& doc.annotations.anchors.wf()
                &&& forall|k: int| 0 <= k < doc.annotations.arrows@.len() ==> {
                    &&& doc.annotations.anchors.keys().contains(spec_end_key(#[trigger] doc.annotations.arrows@[k].from))
                    &&& doc.annotations.anchors.keys().contains(spec_end_key(doc.annotations.arrows@[k].to))
                }
            },
            r is Ok <==> spec_keys_distinct(spec_pending_keys(self.pending_anchors@))
                && spec_arrows_resolve(self.pending_arrows@, spec_pending_keys(self.pending_anchors@)),
            r matches Ok(doc) ==> {
                &&& doc.style == self.style
                &&& doc.lines == self.lines
                &&& doc.annotations.overlays == self.overlays
                &&& doc.annotations.anchors.keys() == spec_pending_keys(self.pending_anchors@)
                &&& doc.annotations.anchors.anchors() == spec_resolved_anchors(self.pending_anchors@)
                &&& doc.annotations.arrows@.len() == self.pending_arrows@.len()
                &&& forall|k: int| 0 <= k < self.pending_arrows@.len() ==> {
                    &&& (#[trigger] doc.annotations.arrows@[k]).from == self.pending_arrows@[k].from
                    &&& doc.annotations.arrows@[k].to == self.pending_arrows@[k].to
                    &&& doc.annotations.arrows@[k].style == self.pending_arrows@[k].style
                    &&& doc.annotations.arrows@[k].label == self.pending_arrows@[k].label
                    &&& doc.annotations.arrows@[k].label_font == self.pending_arrows@[k].label_font
                }
            },
            r matches Err(e) ==> spec_check_error(self.pending_anchors@, self.pending_arrows@, e),
    {
        let ghost pa = self.pending_anchors@;
        let ghost keys = spec_pending_keys(pa);
        let Parser { style, lines, overlays, pending_anchors, pending_arrows, .. } = self;
        let mut registry = AnchorRegistry::new();
        let mut k: usize = 0;
        while k < pending_anchors.len()
            invariant
                k <= pending_anchors@.len(),
                pending_anchors@ == pa,
                pa == self.pending_anchors@,
                keys == spec_pending_keys(pa),
                registry.wf(),
                registry.keys() == keys.subrange(0, k as int),
                registry.anchors() == spec_resolved_anchors(pa).subrange(0, k as int),
                forall|i: int| 0 <= i < pending_anchors@.len() ==> spec_pos_ok(#[trigger] pending_anchors@[i].location),
                spec_first_repeat(keys, 0) == spec_first_repeat(keys, k as int),
            decreases pending_anchors.len() - k,
        {
            let p = &pending_anchors[k];
            let resolved = ResolvedAnchor::new(Point::zero(), p.signal_index, p.element_index);
            assert(keys[k as int] == p.id@);
            if registry.try_insert_unique(p.id.duplicate(), resolved).is_err() {
                proof {
                    let i = choose|i: int| 0 <= i < registry.keys().len() && registry.keys()[i] == p.id@;
                    assert(keys[i] == keys[k as int]);
                    assert(!spec_keys_distinct(keys));
                    assert(keys.subrange(0, k as int).contains(keys[k as int]));
                }
                return Err(ParseError::with_length(p.location, anchor_token_length(&p.id), ParseErrorKind::DuplicateAnchor));
            }
            assert(!keys.subrange(0, k as int).contains(keys[k as int]));
            assert(registry.keys() =~= keys.subrange(0, k + 1));
            assert(registry.anchors() =~= spec_resolved_anchors(pa).subrange(0, k + 1));
            k = k + 1;
        }
        proof {
            assert(spec_first_repeat(keys, k as int) is None);
            assert(keys.subrange(0, pa.len() as int) =~= keys);
            assert(spec_resolved_anchors(pa).subrange(0, pa.len() as int) =~= spec_resolved_anchors(pa));
            assert(spec_keys_distinct(keys)) by {
                assert forall|i: int, j: int| 0 <= i < j < keys.len() implies #[trigger] keys[i] != #[trigger] keys[j] by {
                    assert(registry.keys()[i] == keys[i] && registry.keys()[j] == keys[j]);
                }
            }
        }
        let n = pending_arrows.len();
        let ghost pw = pending_arrows@;
        let mut rest = pending_arrows;
        let mut arrows: Vec<Arrow> = Vec::new();
        let mut j: usize = 0;
        while j < n
            invariant
                j <= n,
                n == pw.len(),
                pw == self.pending_arrows@,
                keys == spec_pending_keys(self.pending_anchors@),
                spec_keys_distinct(keys),
                rest@.len() == n - j,
                rest@ == pw.subrange(j as int, n as int),
                registry.wf(),
                registry.keys() == keys,
                spec_first_repeat(keys, 0) is None,
                spec_first_unresolved(pw, keys, 0) == spec_first_unresolved(pw, keys, j as int),
                forall|i: int| 0 <= i < j ==> {
                    &&& keys.contains(spec_end_key(#[trigger] pw[i].from))
                    &&& keys.contains(spec_end_key(pw[i].to))
                },
                arrows@.len() == j,
                forall|i: int| 0 <= i < j ==> {
                    &&& (#[trigger] arrows@[i]).from == pw[i].from
                    &&& arrows@[i].to == pw[i].to
                    &&& arrows@[i].style == pw[i].style
                    &&& arrows@[i].label == pw[i].label
                    &&& arrows@[i].label_font == pw[i].label_font
                },
                forall|i: int| 0 <= i < pw.len() ==> {
                    &&& spec_pos_ok(#[trigger] pw[i].from_location)
                    &&& spec_pos_ok(pw[i].to_location)
                },
                forall|i: int| 0 <= i < arrows@.len() ==> {
                    &&& registry.keys().contains(spec_end_key(#[trigger] arrows@[i].from))
                    &&& registry.keys().contains(spec_end_key(arrows@[i].to))
                },
            decreases n - j,
        {
            let ghost left = rest@;
            let a = rest.remove(0);
            assert(a == left[0]);
            assert(a == pw[j as int]);
            assert(rest@ =~= pw.subrange(j + 1, n as int));
            match check_endpoint(&a.from, &registry, a.from_location) {
                Ok(()) => {},
                Err(e) => {
                    proof {
                        assert(!keys.contains(spec_end_key(pw[j as int].from)));
                        assert(!spec_arrows_resolve(pw, keys));
                    }
                    return Err(e);
                },
            }
            match check_endpoint(&a.to, &registry, a.to_location) {
                Ok(()) => {},
                Err(e) => {
                    proof {
                        assert(!keys.contains(spec_end_key(pw[j as int].to)));
                        assert(!spec_arrows_resolve(pw, keys));
                    }
                    return Err(e);
                },
            }
            let ghost before = arrows@;
            arrows.push(Arrow { from: a.from, to: a.to, style: a.style, label: a.label, label_font: a.label_font });
            assert forall|i: int| 0 <= i < arrows@.len() implies {
                &&& registry.keys().contains(spec_end_key(#[trigger] arrows@[i].from))
                &&& registry.keys().contains(spec_end_key(arrows@[i].to))
            } by {
                if i < before.len() {
                    assert(arrows@[i] == before[i]);
                }
            }
            assert forall|i: int| 0 <= i < j + 1 implies {
                &&& (#[trigger] arrows@[i]).from == pw[i].from
                &&& arrows@[i].to == pw[i].to
                &&& arrows@[i].style == pw[i].style
                &&& arrows@[i].label == pw[i].label
                &&& arrows@[i].label_font == pw[i].label_font
            } by {
                if i < before.len() {
                    assert(arrows@[i] == before[i]);
                }
            }
            j = j + 1;
        }
        Ok(ChartDocument {
            style,
            lines,
            annotations: Annotations { overlays, arrows, anchors: registry },
            source: TcmlSource { text: owned(input) },
        })
    }
}

/// An endpoint must name a registered anchor.
fn check_endpoint(end: &ArrowEnd, registry: &AnchorRegistry, location: SourceLocation) -> (r: Result<(), ParseError>)
    requires
        spec_pos_ok(location),
    ensures
        r matches Err(e) ==> spec_pos_ok(e.location),
        r is Ok <==> registry.keys().contains(spec_end_key(*end)),
        r matches Err(e) ==> spec_undefined_anchor_error(e, *end, location),
{
    match end {
        ArrowEnd::Anchor(id) => {
            if registry.contains(id) {
                Ok(())
            } else {
                let display = anchor_display(id);
                let length = clamp_u32(crate::chars::chars_of(display.as_str()).len());
                assert(spec_end_key(*end) == id@);
                Err(ParseError::with_length(location, length, ParseErrorKind::UndefinedAnchor(display)))
            }
        },
    }
}

/// Index of the first whitespace character of `s[a..b]` (`b` if none).
pub open spec fn spec_first_ws(s: Seq<char>, a: int, b: int) -> int
    decreases b - a,
{
    if a >= b {
        b
    } else if spec_is_whitespace(s[a]) {
        a
    } else {
        spec_first_ws(s, a + 1, b)
    }
}

/// Index of the first whitespace character of `chars[a..b]` (`b` if none).
fn first_whitespace(chars: &[char], a: usize, b: usize) -> (r: usize)
    requires
        a <= b <= chars@.len(),
    ensures
        a <= r <= b,
        r == spec_first_ws(chars@, a as int, b as int),
{
    let mut i = a;
    while i < b && !is_whitespace(chars[i])
        invariant
            a <= i <= b <= chars@.len(),
            spec_first_ws(chars@, a as int, b as int) == spec_first_ws(chars@, i as int, b as int),
        decreases b - i,
    {
        i = i + 1;
    }
    i
}

/// An overlay coordinate: a finite number (read wide).
fn overlay_coordinate(chars: &[char], a: usize, b: usize, location: SourceLocation, raw_start: usize) -> (r: Result<Px, ParseError>)
    requires
        spec_pos_ok(location),
        raw_start <= a <= b <= chars@.len(),
    ensures
        r matches Err(e) ==> spec_pos_ok(e.location),
        match spec_wide_number(chars@, a as int, b as int) {
            Some(Number::Value { micros }) => r == Ok::<Px, ParseError>(Px { micros }),
            _ => r matches Err(e) && spec_coordinate_error(chars@, a as int, b as int, location, raw_start as int, e),
        },
{
    match parse_wide_number(chars, a, b) {
        Some(Number::Value { micros }) => Ok(Px { micros }),
        _ => {
            let at = if a == b {
                location
            } else {
                SourceLocation::new(location.line, column_of(a - raw_start))
            };
            Err(ParseError::with_length(at, clamp_u32(b - a), ParseErrorKind::InvalidOverlayCoordinate(string_of(chars, a, b))))
        },
    }
}

/// A signal name read from a quoted token.
fn signal_name_or_error(text: &Vec<char>, location: SourceLocation) -> (r: Result<SignalName, ParseError>)
        requires
            spec_pos_ok(location),
        ensures
            r matches Err(e) ==> spec_pos_ok(e.location),
            r is Ok <==> text@.len() > 0 && forall|k: int| 0 <= k < text@.len() ==> !spec_is_forbidden(#[trigger] text@[k]),
            r matches Ok(n) ==> n@ == text@,
            r matches Err(e) ==> spec_name_error(text@, location, e),
    {
    assert(text@.subrange(0, text@.len() as int) =~= text@);
    match SignalName::parse(text, 0, text.len()) {
        Ok(n) => Ok(n),
        Err(e) => {
            let (offset, length) = match e.char_offset() {
                Some(o) => (o, 1u32),
                None => (0u32, clamp_u32(text.len())),
            };
            Err(ParseError::with_length(location.shifted(offset), length, ParseErrorKind::InvalidName(e)))
        },
    }
}

/// The amount of `@skip(...)`: a number of line heights, or of pixels
/// with a `px` suffix (an `lh` suffix is allowed too). Zero means no row;
/// negative, non-finite or unreadable amounts are rejected.
fn skip_amount(chars: &[char], ta: usize, tb: usize, location: SourceLocation) -> (r: Result<Option<Length>, ParseError>)
    requires
        spec_pos_ok(location),
        ta <= tb <= chars@.len(),
    ensures
        r matches Err(e) ==> spec_pos_ok(e.location),
        r matches Ok(Some(Length::Lh(v))) ==> v.micros > 0,
        r matches Ok(Some(Length::Px(v))) ==> v.micros > 0,
        r matches Err(e) ==> e.location == location && e.kind is InvalidSkipAmount,
        match spec_skip_amount(chars@, ta as int, tb as int) {
            Ok(v) => r == Ok::<Option<Length>, ParseError>(v),
            Err(_) => r matches Err(e) && e.length == (if ta == tb { 1 } else { spec_clamp_u32(tb - ta) })
                && (e.kind matches ParseErrorKind::InvalidSkipAmount(t) && t@ == chars@.subrange(ta as int, tb as int)),
        },
{
    let length = clamp_u32(tb - ta);
    let bad = ParseError::with_length(location, if length == 0 { 1 } else { length }, ParseErrorKind::InvalidSkipAmount(string_of(chars, ta, tb)));
    if ta == tb {
        return Err(bad);
    }
    let mut e = tb;
    let mut is_px = false;
    assert(['p', 'x']@ =~= seq!['p', 'x']);
    assert(['l', 'h']@ =~= seq!['l', 'h']);
    if tb - ta >= 2 {
        if span_eq_ignore_case(chars, tb - 2, tb, &['p', 'x']) {
            e = tb - 2;
            is_px = true;
        } else if span_eq_ignore_case(chars, tb - 2, tb, &['l', 'h']) {
            e = tb - 2;
        }
    }
    let (x, y) = trim_span(chars, ta, e);
    match parse_number(chars, x, y) {
        Some(Number::Value { micros }) => {
            if micros < 0 {
                Err(bad)
            } else if micros == 0 {
                Ok(None)
            } else if is_px {
                Ok(Some(Length::Px(Px { micros })))
            } else {
                Ok(Some(Length::Lh(Ratio { micros })))
            }
        },
        _ => Err(bad),
    }
}

/// Units a clock row is extended to: the widest explicit row divided by
/// the row's step, rounded to the nearest unit (halves up); zero when
/// either is not positive.
pub open spec fn spec_target_units(max: Px, step: Px) -> int {
    if step.micros <= 0 || max.micros <= 0 {
        0
    } else {
        let q = (2 * max.micros + step.micros) / (2 * step.micros);
        if q > u32::MAX { u32::MAX as int } else { q }
    }
}

pub fn target_units(max: Px, step: Px) -> (n: u32)
    ensures
        n as int == spec_target_units(max, step),
{
    if step.micros <= 0 || max.micros <= 0 {
        return 0;
    }
    let m = max.micros as i128;
    let s = step.micros as i128;
    let q = (2 * m + s) / (2 * s);
    if q > 0xffff_ffffi128 {
        0xffff_ffffu32
    } else {
        q as u32
    }
}

} // verus!
