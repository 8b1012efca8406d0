//! `@clock(...)` attribute lists.

use vstd::prelude::*;
use crate::chars::{
    clamp_u32, span_eq, span_eq_ignore_case, spec_eq_ignore_case, spec_skip_space_tab, spec_trim, string_of,
    trim_space_tab, trim_span,
};
use crate::clock::{ClockEdge, ClockMarkStyle, ClockPhase, ClockPulse, ClockSpec, spec_clock_edge_word};
use crate::color::{Color, spec_color};
use crate::defaults;
use crate::errors::{ParseError, ParseErrorKind, SourceLocation, spec_clamp_u32, spec_pos_ok, spec_shifted};
use crate::number::{Number, exact_in_unit, exact_positive, parse_wide_number, spec_exact_in_unit, spec_exact_positive, spec_wide_number};
use crate::units::{Px, Ratio};
use super::attr::{
    first_index, lemma_first_index, normalise, parse_u32, spec_first_index, spec_key_value, spec_normalise,
    spec_u32_literal, split_key_value,
};

verus! {

/// Clock-mark settings given by `@clockmark_*` (globally) or by
/// `mark_*` attributes (for one clock).
#[derive(Debug, Clone, Copy, PartialEq, Eq, Structural)]
pub struct MarkOverrides {
    pub position: Option<Ratio>,
    pub height: Option<Px>,
    pub width: Option<Px>,
    pub color: Option<Color>,
}

impl MarkOverrides {
    pub fn none() -> (r: MarkOverrides)
        ensures
            r.position is None && r.height is None && r.width is None && r.color is None,
    {
        MarkOverrides { position: None, height: None, width: None, color: None }
    }
}

pub open spec fn spec_or<T>(a: Option<T>, b: Option<T>) -> Option<T> {
    if a is Some { a } else { b }
}

/// Two thirds of `m`, rounded toward zero.
pub open spec fn spec_two_thirds(m: int) -> int {
    if m >= 0 { (2 * m) / 3 } else { -((-2 * m) / 3) }
}

/// The clock-mark style of a new clock: its own `mark_*` values first,
/// then the global `@clockmark_*` ones, then the defaults. A width left
/// to the default shrinks to two thirds of the step when that is smaller;
/// an unset color follows the signal color.
pub open spec fn spec_mark_style(local: MarkOverrides, global: MarkOverrides, step: Px, signal_color: Color) -> ClockMarkStyle {
    ClockMarkStyle {
        position: match spec_or(local.position, global.position) {
            Some(p) => p,
            None => defaults::default_clockmark_position(),
        },
        height: match spec_or(local.height, global.height) {
            Some(h) => h,
            None => defaults::default_clockmark_height(),
        },
        width: match spec_or(local.width, global.width) {
            Some(w) => w,
            None => {
                let shrink = spec_two_thirds(step.micros as int);
                Px { micros: if shrink < defaults::default_clockmark_width().micros { shrink as i64 } else { defaults::default_clockmark_width().micros } }
            },
        },
        color: match spec_or(local.color, global.color) {
            Some(c) => c,
            None => signal_color,
        },
    }
}

/// A clock's own mark settings win over the global `@clockmark_*` ones:
/// each field set by the clock is taken whatever the global settings are,
/// a field the clock leaves unset takes the global one, and the colour
/// falls back to the signal colour only when neither sets it.
pub proof fn lemma_own_mark_settings_win(local: MarkOverrides, g1: MarkOverrides, g2: MarkOverrides, step: Px, signal_color: Color)
    ensures
        local.position matches Some(p) ==> spec_mark_style(local, g1, step, signal_color).position == p,
        local.height matches Some(h) ==> spec_mark_style(local, g1, step, signal_color).height == h,
        local.width matches Some(w) ==> spec_mark_style(local, g1, step, signal_color).width == w,
        local.color matches Some(c) ==> spec_mark_style(local, g1, step, signal_color).color == c,
        g1.position matches Some(p) ==> (local.position is None ==> spec_mark_style(local, g1, step, signal_color).position == p),
        g1.height matches Some(h) ==> (local.height is None ==> spec_mark_style(local, g1, step, signal_color).height == h),
        g1.width matches Some(w) ==> (local.width is None ==> spec_mark_style(local, g1, step, signal_color).width == w),
        g1.color matches Some(c) ==> (local.color is None ==> spec_mark_style(local, g1, step, signal_color).color == c),
        local.color is None && g1.color is None ==> spec_mark_style(local, g1, step, signal_color).color == signal_color,
        local.color is Some ==> spec_mark_style(local, g1, step, signal_color).color == spec_mark_style(local, g2, step, signal_color).color,
{
}

pub fn resolve_mark_style(local: &MarkOverrides, global: &MarkOverrides, step: Px, signal_color: Color) -> (s: ClockMarkStyle)
    ensures
        s == spec_mark_style(*local, *global, step, signal_color),
{
    let position = match local.position {
        Some(p) => p,
        None => match global.position {
            Some(p) => p,
            None => defaults::clockmark_position(),
        },
    };
    let height = match local.height {
        Some(h) => h,
        None => match global.height {
            Some(h) => h,
            None => defaults::clockmark_height(),
        },
    };
    let width = match local.width {
        Some(w) => w,
        None => match global.width {
            Some(w) => w,
            None => {
                let m = step.micros as i128;
                assert(-0x8000_0000_0000_0000 <= m < 0x8000_0000_0000_0000);
                let shrink: i128 = if m >= 0 {
                    (2 * m) / 3
                } else {
                    let neg: i128 = 0 - m;
                    let twice: i128 = 2 * neg;
                    0 - twice / 3
                };
                assert(-0x8000_0000_0000_0000 <= shrink);
                let default_width = defaults::clockmark_width();
                if shrink < default_width.micros as i128 {
                    Px { micros: shrink as i64 }
                } else {
                    default_width
                }
            },
        },
    };
    let color = match local.color {
        Some(c) => c,
        None => match global.color {
            Some(c) => c,
            None => signal_color,
        },
    };
    ClockMarkStyle { position, height, width, color }
}

/// Attributes collected from one `@clock(...)`; each may be given once.
pub struct ClockAttrs {
    pub edge: Option<ClockEdge>,
    pub low: Option<u32>,
    pub high: Option<u32>,
    pub start: Option<ClockPhase>,
    pub marks: MarkOverrides,
}

/// No attribute given yet.
pub open spec fn spec_no_clock_attrs() -> ClockAttrs {
    ClockAttrs {
        edge: None,
        low: None,
        high: None,
        start: None,
        marks: MarkOverrides { position: None, height: None, width: None, color: None },
    }
}

/// A pulse width: a decimal `u32` of at least 1, surrounding whitespace
/// ignored.
pub open spec fn spec_pulse_value(s: Seq<char>, va: int, vb: int) -> Option<u32> {
    match spec_u32_literal(s, spec_trim(s, va, vb).0, spec_trim(s, va, vb).1) {
        Some(v) => if v >= 1 { Some(v) } else { None },
        None => None,
    }
}

/// A finite number (read wide, up to `MAX_WIDE_UNITS`), in millionths,
/// surrounding whitespace ignored.
pub open spec fn spec_finite_micros(s: Seq<char>, va: int, vb: int) -> Option<i64> {
    match spec_wide_number(s, spec_trim(s, va, vb).0, spec_trim(s, va, vb).1) {
        Some(Number::Value { micros }) => Some(micros),
        _ => None,
    }
}

/// A positive size in millionths: one below a millionth, which rounds to
/// zero, is kept as the smallest positive size.
pub open spec fn spec_kept_positive(m: i64) -> i64 {
    if m < 1 { 1 } else { m }
}

/// `low` or `high` in any case, surrounding whitespace ignored.
pub open spec fn spec_phase_word(s: Seq<char>, va: int, vb: int) -> Option<ClockPhase> {
    let w = s.subrange(spec_trim(s, va, vb).0, spec_trim(s, va, vb).1);
    if spec_eq_ignore_case(w, seq!['l', 'o', 'w']) {
        Some(ClockPhase::StartLow)
    } else if spec_eq_ignore_case(w, seq!['h', 'i', 'g', 'h']) {
        Some(ClockPhase::StartHigh)
    } else {
        None
    }
}

/// The attributes after `key=value` (with `key` normalised and the value
/// at `s[va..vb]`), or `None` when the key is unknown, the value is not
/// valid for it, or the attribute was given before.
pub open spec fn spec_apply_clock_key(a: ClockAttrs, key: Seq<char>, s: Seq<char>, va: int, vb: int) -> Option<ClockAttrs> {
    if key == seq!['_'] {
        if a.low is None && spec_pulse_value(s, va, vb) is Some {
            Some(ClockAttrs { low: spec_pulse_value(s, va, vb), ..a })
        } else {
            None
        }
    } else if key == seq!['~'] {
        if a.high is None && spec_pulse_value(s, va, vb) is Some {
            Some(ClockAttrs { high: spec_pulse_value(s, va, vb), ..a })
        } else {
            None
        }
    } else if key == seq!['s', 't', 'a', 'r', 't'] {
        if a.start is None && spec_phase_word(s, va, vb) is Some {
            Some(ClockAttrs { start: spec_phase_word(s, va, vb), ..a })
        } else {
            None
        }
    } else if key == seq!['m', 'a', 'r', 'k', '_', 'p', 'o', 's', 'i', 't', 'i', 'o', 'n'] {
        match spec_finite_micros(s, va, vb) {
            Some(m) => if spec_exact_in_unit(s, spec_trim(s, va, vb).0, spec_trim(s, va, vb).1) && a.marks.position is None {
                Some(ClockAttrs { marks: MarkOverrides { position: Some(Ratio { micros: m }), ..a.marks }, ..a })
            } else {
                None
            },
            None => None,
        }
    } else if key == seq!['m', 'a', 'r', 'k', '_', 'h', 'e', 'i', 'g', 'h', 't'] {
        match spec_finite_micros(s, va, vb) {
            Some(m) => if spec_exact_positive(s, spec_trim(s, va, vb).0, spec_trim(s, va, vb).1) && a.marks.height is None {
                Some(ClockAttrs { marks: MarkOverrides { height: Some(Px { micros: spec_kept_positive(m) }), ..a.marks }, ..a })
            } else {
                None
            },
            None => None,
        }
    } else if key == seq!['m', 'a', 'r', 'k', '_', 'w', 'i', 'd', 't', 'h'] {
        match spec_finite_micros(s, va, vb) {
            Some(m) => if spec_exact_positive(s, spec_trim(s, va, vb).0, spec_trim(s, va, vb).1) && a.marks.width is None {
                Some(ClockAttrs { marks: MarkOverrides { width: Some(Px { micros: spec_kept_positive(m) }), ..a.marks }, ..a })
            } else {
                None
            },
            None => None,
        }
    } else if key == seq!['m', 'a', 'r', 'k', '_', 'c', 'o', 'l', 'o', 'r'] {
        match spec_color(s, spec_trim(s, va, vb).0, spec_trim(s, va, vb).1) {
            Ok(c) => if a.marks.color is None {
                Some(ClockAttrs { marks: MarkOverrides { color: Some(c), ..a.marks }, ..a })
            } else {
                None
            },
            Err(_) => None,
        }
    } else {
        None
    }
}

/// One non-empty attribute token `s[ta..tb]`: an edge keyword, or
/// `key=value`.
pub open spec fn spec_clock_token(a: ClockAttrs, s: Seq<char>, ta: int, tb: int) -> Option<ClockAttrs> {
    match spec_clock_edge_word(s.subrange(ta, tb)) {
        Some(edge) => if a.edge is None { Some(ClockAttrs { edge: Some(edge), ..a }) } else { None },
        None => match spec_key_value(s, ta, tb) {
            None => None,
            Some((ka, kb, va, vb)) => spec_apply_clock_key(a, spec_normalise(s.subrange(ka, kb)), s, va, vb),
        },
    }
}

/// The comma-separated attribute list `s[pos..end]` applied to `a` in
/// order (empty tokens are skipped). On the first rejected token the
/// result is `Err((lead, ta, tb))`: where its segment starts after spaces
/// and tabs, and the token's trimmed span.
pub open spec fn spec_clock_list(a: ClockAttrs, s: Seq<char>, pos: int, end: int) -> Result<ClockAttrs, (int, int, int)>
    decreases end - pos,
{
    if pos > end {
        Ok(a)
    } else {
        let seg_end = match spec_first_index(s, pos, end, ',') {
            Some(c) => c,
            None => end,
        };
        let t = spec_trim(s, pos, seg_end);
        let next = if t.0 < t.1 { spec_clock_token(a, s, t.0, t.1) } else { Some(a) };
        match next {
            None => Err((spec_skip_space_tab(s, pos, seg_end), t.0, t.1)),
            Some(b) => if seg_end >= end {
                Ok(b)
            } else {
                proof {
                    lemma_first_index(s, pos, end, ',');
                }
                spec_clock_list(b, s, seg_end + 1, end)
            },
        }
    }
}

/// The clock a complete attribute set describes: an unset edge is none,
/// unset pulse widths are 1, an unset phase starts low.
pub open spec fn spec_clock_from_attrs(a: ClockAttrs, global: MarkOverrides, step: Px, signal_color: Color) -> ClockSpec {
    ClockSpec {
        edge: match a.edge {
            Some(e) => e,
            None => ClockEdge::NoEdge,
        },
        pulse: ClockPulse {
            low: match a.low {
                Some(v) => v,
                None => 1,
            },
            high: match a.high {
                Some(v) => v,
                None => 1,
            },
        },
        start: match a.start {
            Some(p) => p,
            None => ClockPhase::StartLow,
        },
        mark_style: spec_mark_style(a.marks, global, step, signal_color),
    }
}

fn invalid_attribute(chars: &[char], ta: usize, tb: usize, location: SourceLocation) -> (e: ParseError)
    requires
        ta <= tb <= chars@.len(),
    ensures
        e.location == location,
        e.length as int == if tb - ta <= u32::MAX { tb - ta } else { u32::MAX as int },
        e.kind matches ParseErrorKind::ClockInvalidAttribute(t) && t@ == chars@.subrange(ta as int, tb as int),
{
    ParseError::with_length(location, clamp_u32(tb - ta), ParseErrorKind::ClockInvalidAttribute(string_of(chars, ta, tb)))
}

/// A positive pulse width in units.
fn pulse_value(chars: &[char], va: usize, vb: usize) -> (r: Option<u32>)
    requires
        va <= vb <= chars@.len(),
    ensures
        r == spec_pulse_value(chars@, va as int, vb as int),
{
    let (a, b) = trim_span(chars, va, vb);
    match parse_u32(chars, a, b) {
        Some(v) => if v >= 1 { Some(v) } else { None },
        None => None,
    }
}

/// A finite value in millionths.
fn finite_micros(chars: &[char], va: usize, vb: usize) -> (r: Option<i64>)
    requires
        va <= vb <= chars@.len(),
    ensures
        r == spec_finite_micros(chars@, va as int, vb as int),
{
    let (a, b) = trim_span(chars, va, vb);
    match parse_wide_number(chars, a, b) {
        Some(Number::Value { micros }) => Some(micros),
        _ => None,
    }
}

/// Applies one `key=value` attribute (key already normalised).
fn apply_key_value(
    attrs: &mut ClockAttrs,
    key: &Vec<char>,
    chars: &[char],
    va: usize,
    vb: usize,
) -> (ok: bool)
    requires
        va <= vb <= chars@.len(),
    ensures
        ok == spec_apply_clock_key(*old(attrs), key@, chars@, va as int, vb as int) is Some,
        ok ==> Some(*final(attrs)) == spec_apply_clock_key(*old(attrs), key@, chars@, va as int, vb as int),
        !ok ==> *final(attrs) == *old(attrs),
{
    let n = key.len();
    proof {
        assert(key@.subrange(0, n as int) =~= key@);
        assert(['_']@ =~= seq!['_']);
        assert(['~']@ =~= seq!['~']);
        assert(['s', 't', 'a', 'r', 't']@ =~= seq!['s', 't', 'a', 'r', 't']);
        assert(['l', 'o', 'w']@ =~= seq!['l', 'o', 'w']);
        assert(['h', 'i', 'g', 'h']@ =~= seq!['h', 'i', 'g', 'h']);
        assert(['m', 'a', 'r', 'k', '_', 'p', 'o', 's', 'i', 't', 'i', 'o', 'n']@
            =~= seq!['m', 'a', 'r', 'k', '_', 'p', 'o', 's', 'i', 't', 'i', 'o', 'n']);
        assert(['m', 'a', 'r', 'k', '_', 'h', 'e', 'i', 'g', 'h', 't']@ =~= seq!['m', 'a', 'r', 'k', '_', 'h', 'e', 'i', 'g', 'h', 't']);
        assert(['m', 'a', 'r', 'k', '_', 'w', 'i', 'd', 't', 'h']@ =~= seq!['m', 'a', 'r', 'k', '_', 'w', 'i', 'd', 't', 'h']);
        assert(['m', 'a', 'r', 'k', '_', 'c', 'o', 'l', 'o', 'r']@ =~= seq!['m', 'a', 'r', 'k', '_', 'c', 'o', 'l', 'o', 'r']);
    }
    if span_eq(key, 0, n, &['_']) {
        let v = pulse_value(chars, va, vb);
        if v.is_some() && attrs.low.is_none() {
            attrs.low = v;
            return true;
        }
        false
    } else if span_eq(key, 0, n, &['~']) {
        let v = pulse_value(chars, va, vb);
        if v.is_some() && attrs.high.is_none() {
            attrs.high = v;
            return true;
        }
        false
    } else if span_eq(key, 0, n, &['s', 't', 'a', 'r', 't']) {
        let (a, b) = trim_span(chars, va, vb);
        let phase = if span_eq_ignore_case(chars, a, b, &['l', 'o', 'w']) {
            Some(ClockPhase::StartLow)
        } else if span_eq_ignore_case(chars, a, b, &['h', 'i', 'g', 'h']) {
            Some(ClockPhase::StartHigh)
        } else {
            None
        };
        if phase.is_some() && attrs.start.is_none() {
            attrs.start = phase;
            return true;
        }
        false
    } else if span_eq(key, 0, n, &['m', 'a', 'r', 'k', '_', 'p', 'o', 's', 'i', 't', 'i', 'o', 'n']) {
        if let Some(m) = finite_micros(chars, va, vb) {
            let (a, b) = trim_span(chars, va, vb);
            if exact_in_unit(chars, a, b) && attrs.marks.position.is_none() {
                attrs.marks = MarkOverrides { position: Some(Ratio { micros: m }), ..attrs.marks };
                return true;
            }
        }
        false
    } else if span_eq(key, 0, n, &['m', 'a', 'r', 'k', '_', 'h', 'e', 'i', 'g', 'h', 't']) {
        if let Some(m) = finite_micros(chars, va, vb) {
            let (a, b) = trim_span(chars, va, vb);
            if exact_positive(chars, a, b) && attrs.marks.height.is_none() {
                attrs.marks = MarkOverrides { height: Some(Px { micros: if m < 1 { 1 } else { m } }), ..attrs.marks };
                return true;
            }
        }
        false
    } else if span_eq(key, 0, n, &['m', 'a', 'r', 'k', '_', 'w', 'i', 'd', 't', 'h']) {
        if let Some(m) = finite_micros(chars, va, vb) {
            let (a, b) = trim_span(chars, va, vb);
            if exact_positive(chars, a, b) && attrs.marks.width.is_none() {
                attrs.marks = MarkOverrides { width: Some(Px { micros: if m < 1 { 1 } else { m } }), ..attrs.marks };
                return true;
            }
        }
        false
    } else if span_eq(key, 0, n, &['m', 'a', 'r', 'k', '_', 'c', 'o', 'l', 'o', 'r']) {
        let (a, b) = trim_span(chars, va, vb);
        if let Ok(c) = Color::parse(chars, a, b) {
            if attrs.marks.color.is_none() {
                attrs.marks = MarkOverrides { color: Some(c), ..attrs.marks };
                return true;
            }
        }
        false
    } else {
        false
    }
}

/// Applies one non-empty attribute token `chars[ta..tb]`.
fn apply_clock_token(attrs: &mut ClockAttrs, chars: &[char], ta: usize, tb: usize) -> (ok: bool)
    requires
        ta < tb <= chars@.len(),
    ensures
        ok == spec_clock_token(*old(attrs), chars@, ta as int, tb as int) is Some,
        ok ==> Some(*final(attrs)) == spec_clock_token(*old(attrs), chars@, ta as int, tb as int),
{
    match ClockEdge::from_keyword(chars, ta, tb) {
        Some(edge) => if attrs.edge.is_none() {
            attrs.edge = Some(edge);
            true
        } else {
            false
        },
        None => match split_key_value(chars, ta, tb) {
            None => false,
            Some((ka, kb, va, vb)) => {
                let key = normalise(chars, ka, kb);
                apply_key_value(attrs, &key, chars, va, vb)
            },
        },
    }
}

/// Reads the attribute list `chars[start..end]` of `@clock(...)`, whose
/// first character is at `location`: comma-separated edge keywords
/// (`pos`, `neg`, `both`, `none`) and `_=`, `~=`, `start=`,
/// `mark_position=`, `mark_height=`, `mark_width=`, `mark_color=`
/// settings, each at most once. Unset pulse widths are 1, the edge
/// defaults to none and the phase to low.
#[verifier::rlimit(40)]
pub fn parse_clock_spec(
    chars: &[char],
    start: usize,
    end: usize,
    location: SourceLocation,
    global: &MarkOverrides,
    step: Px,
    signal_color: Color,
) -> (r: Result<ClockSpec, ParseError>)
    requires
        spec_pos_ok(location),
        start <= end <= chars@.len(),
    ensures
        r matches Err(e) ==> spec_pos_ok(e.location),
        r matches Ok(spec) ==> spec.wf(),
        match spec_clock_list(spec_no_clock_attrs(), chars@, start as int, end as int) {
            Ok(a) => r == Ok::<ClockSpec, ParseError>(spec_clock_from_attrs(a, *global, step, signal_color)),
            Err((lead, ta, tb)) => r matches Err(e) && {
                &&& e.kind matches ParseErrorKind::ClockInvalidAttribute(t) && t@ == chars@.subrange(ta, tb)
                &&& e.location == spec_shifted(location, spec_clamp_u32(lead - start))
                &&& e.length == spec_clamp_u32(tb - ta)
            },
        },
{
    let mut attrs = ClockAttrs { edge: None, low: None, high: None, start: None, marks: MarkOverrides::none() };
    let mut pos = start;
    loop
        invariant_except_break
            start <= pos <= end,
            spec_clock_list(spec_no_clock_attrs(), chars@, start as int, end as int)
                == spec_clock_list(attrs, chars@, pos as int, end as int),
        invariant
            start <= end <= chars@.len(),
            spec_pos_ok(location),
            attrs.low matches Some(v) ==> v >= 1,
            attrs.high matches Some(v) ==> v >= 1,
        ensures
            spec_clock_list(spec_no_clock_attrs(), chars@, start as int, end as int) == Ok::<ClockAttrs, (int, int, int)>(attrs),
        decreases end - pos,
    {
        let seg_end = match first_index(chars, pos, end, ',') {
            Some(c) => c,
            None => end,
        };
        let (lead, _) = trim_space_tab(chars, pos, seg_end);
        let (ta, tb) = trim_span(chars, pos, seg_end);
        if ta < tb {
            if !apply_clock_token(&mut attrs, chars, ta, tb) {
                let token_location = location.shifted(clamp_u32(lead - start));
                return Err(invalid_attribute(chars, ta, tb, token_location));
            }
        }
        if seg_end >= end {
            break;
        }
        pos = seg_end + 1;
    }
    let edge = match attrs.edge {
        Some(e) => e,
        None => ClockEdge::NoEdge,
    };
    let low = match attrs.low {
        Some(v) => v,
        None => 1,
    };
    let high = match attrs.high {
        Some(v) => v,
        None => 1,
    };
    let phase = match attrs.start {
        Some(p) => p,
        None => ClockPhase::StartLow,
    };
    let mark_style = resolve_mark_style(&attrs.marks, global, step, signal_color);
    Ok(ClockSpec { edge, pulse: ClockPulse { low, high }, start: phase, mark_style })
}

} // verus!
