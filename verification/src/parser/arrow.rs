//! `@-> (from, to, attributes...) label` arrow declarations.

use vstd::prelude::*;
use crate::anchor::AnchorKey;
use crate::arrow::{ArrowEnd, ArrowHead, ArrowStyle, LineDashStyle, spec_dash_word, spec_end_key, spec_head_word};
use crate::chars::{
    clamp_u32, is_ascii_digit, rfind_char, span_eq, span_eq_ignore_case, spec_eq_ignore_case, spec_is_ascii_digit,
    spec_last_index, spec_trim, string_of, trim_span,
};
use crate::color::{Color, spec_color};
use crate::errors::{ParseError, ParseErrorKind, SourceLocation, TextError, spec_clamp_u32, spec_pos_ok, spec_shifted};
use crate::number::{Number, parse_number, spec_number};
use crate::text::{FontSpec, UserText, spec_is_forbidden, spec_text_error};
use crate::units::Px;
use super::anchor_scan::{scan_anchor, spec_anchor_error, spec_scan_anchor};
use super::directive::spec_sat_add;
use super::attr::{
    first_index, lemma_first_index, normalise, spec_first_index, spec_key_value, spec_normalise, spec_strip_parens,
    split_key_value, strip_parens,
};
use super::source::Source;
use super::text_quote::{collect_quoted, spec_quoted_raw, spec_unescape};

verus! {

/// An arrow whose endpoints still have to be checked against the anchors.
pub struct PendingArrow {
    pub from: ArrowEnd,
    pub to: ArrowEnd,
    pub style: ArrowStyle,
    pub label: Option<UserText>,
    pub label_font: FontSpec,
    pub from_location: SourceLocation,
    pub to_location: SourceLocation,
}

/// One comma-separated piece of the argument list: its trimmed span and
/// where it starts in the source.
struct Segment {
    start: usize,
    end: usize,
    location: SourceLocation,
}

/// The comma-separated pieces of `s[pos..end]`, each trimmed.
pub open spec fn spec_segments(s: Seq<char>, pos: int, end: int) -> Seq<(int, int)>
    decreases end - pos,
{
    if pos > end {
        Seq::empty()
    } else {
        let seg_end = match spec_first_index(s, pos, end, ',') {
            Some(c) => c,
            None => end,
        };
        if seg_end >= end {
            seq![spec_trim(s, pos, seg_end)]
        } else {
            proof {
                lemma_first_index(s, pos, end, ',');
            }
            seq![spec_trim(s, pos, seg_end)] + spec_segments(s, seg_end + 1, end)
        }
    }
}

/// The spans of a list of pieces.
spec fn spec_segment_spans(v: Seq<Segment>) -> Seq<(int, int)> {
    v.map_values(|g: Segment| (g.start as int, g.end as int))
}

/// The anchor an endpoint `s[a..b]` names: `@` and an anchor identifier
/// that fills the rest.
pub open spec fn spec_arrow_end(s: Seq<char>, a: int, b: int) -> Option<AnchorKey> {
    if a < b && s[a] == '@' {
        match spec_scan_anchor(s, a + 1, b) {
            Some((k, n)) => if n == b { Some(k) } else { None },
            None => None,
        }
    } else {
        None
    }
}

/// An arrow endpoint: `@{name}` or `@N`, and nothing else.
fn parse_end(chars: &[char], a: usize, b: usize, location: SourceLocation) -> (r: Result<ArrowEnd, ParseError>)
    requires
        spec_pos_ok(location),
        a <= b <= chars@.len(),
    ensures
        r matches Err(e) ==> spec_pos_ok(e.location),
        match r {
            Ok(e) => spec_arrow_end(chars@, a as int, b as int) == Some(spec_end_key(e)),
            Err(e) => spec_arrow_end(chars@, a as int, b as int) is None && e.location.line == location.line,
        },
        r matches Err(e) ==> spec_end_error(chars@, a as int, b as int, location, e),
        r matches Err(e) ==> (a < b && chars@[a as int] == '@' && spec_scan_anchor(chars@, a + 1, b as int) is None) || {
            &&& e.kind == ParseErrorKind::InvalidArrowSyntax
            &&& e.location == location
            &&& e.length == if a == b { 1 } else { spec_clamp_u32(b - a) }
        },
{
    if a < b && chars[a] == '@' {
        let (id, next) = scan_anchor(chars, a + 1, b, location)?;
        if next == b {
            return Ok(ArrowEnd::Anchor(id));
        }
    }
    let length = clamp_u32(b - a);
    Err(ParseError::with_length(location, if length == 0 { 1 } else { length }, ParseErrorKind::InvalidArrowSyntax))
}

/// Whether `chars[a..b]` ends with `px` (in any case).
fn ends_with_px(chars: &[char], a: usize, b: usize) -> (r: bool)
    requires
        a <= b <= chars@.len(),
    ensures
        r == spec_ends_with_px(chars@, a as int, b as int),
{
    b - a >= 2 && span_eq_ignore_case(chars, b - 2, b, &['p', 'x'])
}

/// A width literal: a number, optionally followed by `px`; never negative.
fn width_value(chars: &[char], a: usize, b: usize) -> (r: Option<Px>)
    requires
        a <= b <= chars@.len(),
    ensures
        r == spec_width_value(chars@, a as int, b as int),
{
    let e = if ends_with_px(chars, a, b) { b - 2 } else { b };
    let (x, y) = trim_span(chars, a, e);
    match parse_number(chars, x, y) {
        Some(Number::Value { micros }) => if micros >= 0 { Some(Px { micros }) } else { None },
        _ => None,
    }
}

/// Whether a bare attribute looks like a width: it starts with a digit,
/// or with `.` followed somewhere by a digit (a `px` suffix aside).
fn looks_like_width(chars: &[char], a: usize, b: usize) -> (r: bool)
    requires
        a <= b <= chars@.len(),
    ensures
        r == spec_looks_like_width(chars@, a as int, b as int),
{
    assert(['p', 'x']@ =~= seq!['p', 'x']);
    let e = if b - a >= 2 && span_eq(chars, b - 2, b, &['p', 'x']) { b - 2 } else { b };
    if a >= e {
        return false;
    }
    if is_ascii_digit(chars[a]) {
        return true;
    }
    if chars[a] != '.' {
        return false;
    }
    let mut k = a + 1;
    while k < e
        invariant
            a < k <= e <= b <= chars@.len(),
            e == (if b - a >= 2 && chars@.subrange(b - 2, b as int) == seq!['p', 'x'] { b - 2 } else { b as int }),
            chars@[a as int] == '.',
            forall|j: int| a < j < k ==> !spec_is_ascii_digit(#[trigger] chars@[j]),
        decreases e - k,
    {
        if is_ascii_digit(chars[k]) {
            return true;
        }
        k = k + 1;
    }
    false
}

/// Style attributes given in one declaration; each may be given once.
pub struct ArrowAttrs {
    pub color: Option<Color>,
    pub width: Option<Px>,
    pub line: Option<LineDashStyle>,
    pub head: Option<ArrowHead>,
    pub label: Option<UserText>,
}

/// What the attributes of a declaration have set so far, the label as
/// its characters.
pub struct ArrowAttrsModel {
    pub color: Option<Color>,
    pub width: Option<Px>,
    pub line: Option<LineDashStyle>,
    pub head: Option<ArrowHead>,
    pub label: Option<Seq<char>>,
}

impl View for ArrowAttrs {
    type V = ArrowAttrsModel;

    open spec fn view(&self) -> ArrowAttrsModel {
        ArrowAttrsModel {
            color: self.color,
            width: self.width,
            line: self.line,
            head: self.head,
            label: match self.label {
                Some(t) => Some(t@),
                None => None,
            },
        }
    }
}

/// Nothing set.
pub open spec fn spec_no_arrow_attrs() -> ArrowAttrsModel {
    ArrowAttrsModel { color: None, width: None, line: None, head: None, label: None }
}

/// The effect of one attribute.
pub enum ArrowAttrOutcome {
    Applied(ArrowAttrsModel),
    Unknown,
    Duplicate,
    BadLabel(TextError),
}

/// Whether `s[a..b]` ends with `px`, in any case.
pub open spec fn spec_ends_with_px(s: Seq<char>, a: int, b: int) -> bool {
    b - a >= 2 && spec_eq_ignore_case(s.subrange(b - 2, b), seq!['p', 'x'])
}

/// A width: a non-negative number, optionally followed by `px`.
pub open spec fn spec_width_value(s: Seq<char>, a: int, b: int) -> Option<Px> {
    let e = if spec_ends_with_px(s, a, b) { b - 2 } else { b };
    match spec_number(s, spec_trim(s, a, e).0, spec_trim(s, a, e).1) {
        Some(Number::Value { micros }) => if micros >= 0 { Some(Px { micros }) } else { None },
        _ => None,
    }
}

/// Whether a bare attribute is taken for a width: with a lower-case `px`
/// suffix set aside, it starts with a digit, or with `.` followed
/// somewhere by a digit.
pub open spec fn spec_looks_like_width(s: Seq<char>, a: int, b: int) -> bool {
    let e = if b - a >= 2 && s.subrange(b - 2, b) == seq!['p', 'x'] { b - 2 } else { b };
    a < e && (spec_is_ascii_digit(s[a]) || (s[a] == '.' && exists|k: int| a < k < e && spec_is_ascii_digit(#[trigger] s[k])))
}

/// The outcome of setting one field that may be set once.
pub open spec fn spec_set_once<T>(current: Option<T>, m: ArrowAttrsModel, set: ArrowAttrsModel) -> ArrowAttrOutcome {
    if current is Some { ArrowAttrOutcome::Duplicate } else { ArrowAttrOutcome::Applied(set) }
}

/// One non-empty attribute `s[x..y]` applied to `m`: `color=`, `width=`,
/// `style=`, `head=` or `label=` (key compared after normalising), or a
/// bare color, dash style or width.
pub open spec fn spec_arrow_attr(m: ArrowAttrsModel, s: Seq<char>, x: int, y: int) -> ArrowAttrOutcome {
    match spec_key_value(s, x, y) {
        Some((ka, kb, va, vb)) => {
            let key = spec_normalise(s.subrange(ka, kb));
            if key == seq!['c', 'o', 'l', 'o', 'r'] {
                match spec_color(s, va, vb) {
                    Ok(c) => spec_set_once(m.color, m, ArrowAttrsModel { color: Some(c), ..m }),
                    Err(_) => ArrowAttrOutcome::Unknown,
                }
            } else if key == seq!['w', 'i', 'd', 't', 'h'] {
                match spec_width_value(s, va, vb) {
                    Some(w) => spec_set_once(m.width, m, ArrowAttrsModel { width: Some(w), ..m }),
                    None => ArrowAttrOutcome::Unknown,
                }
            } else if key == seq!['s', 't', 'y', 'l', 'e'] {
                match spec_dash_word(s.subrange(va, vb)) {
                    Some(l) => spec_set_once(m.line, m, ArrowAttrsModel { line: Some(l), ..m }),
                    None => ArrowAttrOutcome::Unknown,
                }
            } else if key == seq!['h', 'e', 'a', 'd'] {
                match spec_head_word(s.subrange(va, vb)) {
                    Some(h) => spec_set_once(m.head, m, ArrowAttrsModel { head: Some(h), ..m }),
                    None => ArrowAttrOutcome::Unknown,
                }
            } else if key == seq!['l', 'a', 'b', 'e', 'l'] {
                match spec_text_error(s.subrange(va, vb)) {
                    None => spec_set_once(m.label, m, ArrowAttrsModel { label: Some(s.subrange(va, vb)), ..m }),
                    Some(e) => ArrowAttrOutcome::BadLabel(e),
                }
            } else {
                ArrowAttrOutcome::Unknown
            }
        },
        None => {
            if spec_color(s, x, y) is Ok {
                spec_set_once(m.color, m, ArrowAttrsModel { color: Some(spec_color(s, x, y)->Ok_0), ..m })
            } else if spec_dash_word(s.subrange(x, y)) is Some {
                spec_set_once(m.line, m, ArrowAttrsModel { line: spec_dash_word(s.subrange(x, y)), ..m })
            } else if spec_looks_like_width(s, x, y) {
                match spec_width_value(s, x, y) {
                    Some(w) => spec_set_once(m.width, m, ArrowAttrsModel { width: Some(w), ..m }),
                    None => ArrowAttrOutcome::Unknown,
                }
            } else {
                ArrowAttrOutcome::Unknown
            }
        },
    }
}

fn segment_error(chars: &[char], seg: &Segment, duplicate: bool) -> (e: ParseError)
    requires
        seg.start <= seg.end <= chars@.len(),
    ensures
        e.location == seg.location,
        e.length == spec_clamp_u32(seg.end - seg.start),
        duplicate ==> (e.kind matches ParseErrorKind::DuplicateArrowAttribute(t)
            && t@ == chars@.subrange(seg.start as int, seg.end as int)),
        !duplicate ==> (e.kind matches ParseErrorKind::UnknownArrowAttribute(t)
            && t@ == chars@.subrange(seg.start as int, seg.end as int)),
{
    let text = string_of(chars, seg.start, seg.end);
    let kind = if duplicate {
        ParseErrorKind::DuplicateArrowAttribute(text)
    } else {
        ParseErrorKind::UnknownArrowAttribute(text)
    };
    ParseError::with_length(seg.location, clamp_u32(seg.end - seg.start), kind)
}

/// Applies one attribute: `key=value` (`color`, `width`, `style`,
/// `head`, `label`) or a bare color, dash style or width.
fn apply_attribute(attrs: &mut ArrowAttrs, chars: &[char], seg: &Segment, fallback: SourceLocation) -> (r: Result<(), ParseError>)
    requires
        spec_pos_ok(seg.location) && spec_pos_ok(fallback),
        seg.start <= seg.end <= chars@.len(),
    ensures
        r matches Err(e) ==> spec_pos_ok(e.location),
        match spec_arrow_attr(old(attrs)@, chars@, seg.start as int, seg.end as int) {
            ArrowAttrOutcome::Applied(m) => r is Ok && final(attrs)@ == m,
            ArrowAttrOutcome::Unknown => r matches Err(e) && e.location == seg.location
                && e.length == spec_clamp_u32(seg.end - seg.start)
                && (e.kind matches ParseErrorKind::UnknownArrowAttribute(t)
                && t@ == chars@.subrange(seg.start as int, seg.end as int)),
            ArrowAttrOutcome::Duplicate => r matches Err(e) && e.location == seg.location
                && e.length == spec_clamp_u32(seg.end - seg.start)
                && (e.kind matches ParseErrorKind::DuplicateArrowAttribute(t)
                && t@ == chars@.subrange(seg.start as int, seg.end as int)),
            ArrowAttrOutcome::BadLabel(te) => r matches Err(e) && e.kind == ParseErrorKind::InvalidText(te)
                && e.location == spec_shifted(fallback, te->char_offset) && e.length == 1,
        },
        r is Err ==> *final(attrs) == *old(attrs),
{
    match split_key_value(chars, seg.start, seg.end) {
        Some((ka, kb, va, vb)) => {
            let key = normalise(chars, ka, kb);
            let n = key.len();
            proof {
                assert(key@.subrange(0, n as int) =~= key@);
                assert(['c', 'o', 'l', 'o', 'r']@ =~= seq!['c', 'o', 'l', 'o', 'r']);
                assert(['w', 'i', 'd', 't', 'h']@ =~= seq!['w', 'i', 'd', 't', 'h']);
                assert(['s', 't', 'y', 'l', 'e']@ =~= seq!['s', 't', 'y', 'l', 'e']);
                assert(['h', 'e', 'a', 'd']@ =~= seq!['h', 'e', 'a', 'd']);
                assert(['l', 'a', 'b', 'e', 'l']@ =~= seq!['l', 'a', 'b', 'e', 'l']);
            }
            if span_eq(&key, 0, n, &['c', 'o', 'l', 'o', 'r']) {
                match Color::parse(chars, va, vb) {
                    Ok(c) => {
                        if attrs.color.is_some() {
                            return Err(segment_error(chars, seg, true));
                        }
                        attrs.color = Some(c);
                        Ok(())
                    },
                    Err(_) => Err(segment_error(chars, seg, false)),
                }
            } else if span_eq(&key, 0, n, &['w', 'i', 'd', 't', 'h']) {
                match width_value(chars, va, vb) {
                    Some(w) => {
                        if attrs.width.is_some() {
                            return Err(segment_error(chars, seg, true));
                        }
                        attrs.width = Some(w);
                        Ok(())
                    },
                    None => Err(segment_error(chars, seg, false)),
                }
            } else if span_eq(&key, 0, n, &['s', 't', 'y', 'l', 'e']) {
                match LineDashStyle::from_keyword(chars, va, vb) {
                    Some(l) => {
                        if attrs.line.is_some() {
                            return Err(segment_error(chars, seg, true));
                        }
                        attrs.line = Some(l);
                        Ok(())
                    },
                    None => Err(segment_error(chars, seg, false)),
                }
            } else if span_eq(&key, 0, n, &['h', 'e', 'a', 'd']) {
                match ArrowHead::from_keyword(chars, va, vb) {
                    Some(h) => {
                        if attrs.head.is_some() {
                            return Err(segment_error(chars, seg, true));
                        }
                        attrs.head = Some(h);
                        Ok(())
                    },
                    None => Err(segment_error(chars, seg, false)),
                }
            } else if span_eq(&key, 0, n, &['l', 'a', 'b', 'e', 'l']) {
                match UserText::parse(chars, va, vb) {
                    Ok(t) => {
                        if attrs.label.is_some() {
                            return Err(segment_error(chars, seg, true));
                        }
                        attrs.label = Some(t);
                        Ok(())
                    },
                    Err(e) => {
                        let offset = match e.char_offset() {
                            Some(o) => o,
                            None => 0,
                        };
                        Err(ParseError::with_length(fallback.shifted(offset), 1, ParseErrorKind::InvalidText(e)))
                    },
                }
            } else {
                Err(segment_error(chars, seg, false))
            }
        },
        None => {
            if let Ok(c) = Color::parse(chars, seg.start, seg.end) {
                if attrs.color.is_some() {
                    return Err(segment_error(chars, seg, true));
                }
                attrs.color = Some(c);
                return Ok(());
            }
            if let Some(l) = LineDashStyle::from_keyword(chars, seg.start, seg.end) {
                if attrs.line.is_some() {
                    return Err(segment_error(chars, seg, true));
                }
                attrs.line = Some(l);
                return Ok(());
            }
            if looks_like_width(chars, seg.start, seg.end) {
                match width_value(chars, seg.start, seg.end) {
                    Some(w) => {
                        if attrs.width.is_some() {
                            return Err(segment_error(chars, seg, true));
                        }
                        attrs.width = Some(w);
                        return Ok(());
                    },
                    None => {
                        return Err(segment_error(chars, seg, false));
                    },
                }
            }
            Err(segment_error(chars, seg, false))
        },
    }
}

/// Splits `chars[start..end]` at its commas; each piece is trimmed and
/// located relative to `location` (the column of `chars[start]`).
fn split_segments(chars: &[char], start: usize, end: usize, location: SourceLocation) -> (v: Vec<Segment>)
    requires
        start <= end <= chars@.len(),
        spec_pos_ok(location),
    ensures
        v@.len() >= 1,
        spec_segment_spans(v@) == spec_segments(chars@, start as int, end as int),
        forall|k: int| 0 <= k < v@.len() ==> #[trigger] v@[k].start <= v@[k].end <= chars@.len(),
        forall|k: int| 0 <= k < v@.len() ==> spec_pos_ok(#[trigger] v@[k].location),
        forall|k: int| 0 <= k < v@.len() ==> #[trigger] v@[k].location == spec_shifted(location, spec_clamp_u32(v@[k].start - start)),
{
    let mut v: Vec<Segment> = Vec::new();
    let mut pos = start;
    let mut done = false;
    while !done
        invariant
            start <= pos <= end <= chars@.len(),
            done ==> v@.len() >= 1,
            spec_pos_ok(location),
            forall|k: int| 0 <= k < v@.len() ==> #[trigger] v@[k].start <= v@[k].end <= chars@.len(),
            forall|k: int| 0 <= k < v@.len() ==> spec_pos_ok(#[trigger] v@[k].location),
            forall|k: int| 0 <= k < v@.len() ==> #[trigger] v@[k].location == spec_shifted(location, spec_clamp_u32(v@[k].start - start)),
            !done ==> spec_segments(chars@, start as int, end as int) == spec_segment_spans(v@) + spec_segments(chars@, pos as int, end as int),
            done ==> spec_segments(chars@, start as int, end as int) == spec_segment_spans(v@),
        decreases end - pos + (if done { 0int } else { 1int }),
    {
        let seg_end = match first_index(chars, pos, end, ',') {
            Some(c) => c,
            None => end,
        };
        let (ta, tb) = trim_span(chars, pos, seg_end);
        let ghost before = v@;
        v.push(Segment { start: ta, end: tb, location: location.shifted(clamp_u32(ta - start)) });
        assert forall|k: int| 0 <= k < v@.len() implies #[trigger] v@[k].start <= v@[k].end <= chars@.len()
            && spec_pos_ok(v@[k].location) && v@[k].location == spec_shifted(location, spec_clamp_u32(v@[k].start - start)) by {
            if k < before.len() {
                assert(v@[k] == before[k]);
            }
        }
        assert(spec_segment_spans(v@) =~= spec_segment_spans(before).push((ta as int, tb as int)));
        if seg_end >= end {
            done = true;
        } else {
            pos = seg_end + 1;
        }
    }
    v
}

/// The head `(...)` and the label of a declaration whose trimmed
/// arguments are `s[t0..t1]`: the head runs up to the last `)`, the
/// label is what follows, trimmed.
pub open spec fn spec_arrow_split(s: Seq<char>, t0: int, t1: int) -> ((int, int), (int, int)) {
    match spec_last_index(s, t0, t1, ')') {
        Some(c) => (spec_trim(s, t0, c + 1), spec_trim(s, c + 1, t1)),
        None => ((t0, t1), (t1, t1)),
    }
}

/// The attributes `segs[k..]` applied in order to `m`, empty ones
/// skipped: the outcome, and the index of the attribute it stopped at.
pub open spec fn spec_arrow_attrs(m: ArrowAttrsModel, s: Seq<char>, segs: Seq<(int, int)>, k: int) -> (ArrowAttrOutcome, int)
    decreases segs.len() - k,
{
    if k < 0 || k >= segs.len() {
        (ArrowAttrOutcome::Applied(m), k)
    } else if segs[k].0 >= segs[k].1 {
        spec_arrow_attrs(m, s, segs, k + 1)
    } else {
        match spec_arrow_attr(m, s, segs[k].0, segs[k].1) {
            ArrowAttrOutcome::Applied(m2) => spec_arrow_attrs(m2, s, segs, k + 1),
            other => (other, k),
        }
    }
}

/// The style an arrow gets: what its attributes set, else the given
/// color and width, a solid line and a head at the end.
pub open spec fn spec_arrow_style(m: ArrowAttrsModel, color: Color, width: Px) -> ArrowStyle {
    ArrowStyle {
        color: match m.color {
            Some(c) => c,
            None => color,
        },
        width: match m.width {
            Some(w) => w,
            None => width,
        },
        line: match m.line {
            Some(l) => l,
            None => LineDashStyle::Solid,
        },
        head: match m.head {
            Some(h) => h,
            None => ArrowHead::EndOnly,
        },
    }
}

/// The characters of an optional label.
pub open spec fn spec_label_chars(label: Option<UserText>) -> Option<Seq<char>> {
    match label {
        Some(t) => Some(t@),
        None => None,
    }
}

/// The pieces between the parentheses of the declaration with arguments
/// `s[a0..a1]`; empty when there are no parentheses.
pub open spec fn spec_arrow_segments(s: Seq<char>, a0: int, a1: int) -> Seq<(int, int)> {
    let parts = spec_arrow_split(s, spec_trim(s, a0, a1).0, spec_trim(s, a0, a1).1);
    match spec_strip_parens(s, parts.0.0, parts.0.1) {
        Some((ia, ib)) => spec_segments(s, ia, ib),
        None => Seq::empty(),
    }
}

/// The label span of the declaration with arguments `s[a0..a1]`.
pub open spec fn spec_arrow_label(s: Seq<char>, a0: int, a1: int) -> (int, int) {
    spec_arrow_split(s, spec_trim(s, a0, a1).0, spec_trim(s, a0, a1).1).1
}

/// Whether the declaration with arguments `s[a0..a1]` is well formed up to
/// its label: parenthesised, two endpoints, and attributes that apply.
pub open spec fn spec_arrow_head_ok(s: Seq<char>, a0: int, a1: int) -> bool {
    let parts = spec_arrow_split(s, spec_trim(s, a0, a1).0, spec_trim(s, a0, a1).1);
    let segs = spec_arrow_segments(s, a0, a1);
    &&& spec_strip_parens(s, parts.0.0, parts.0.1) is Some
    &&& segs.len() >= 2
    &&& spec_arrow_end(s, segs[0].0, segs[0].1) is Some
    &&& spec_arrow_end(s, segs[1].0, segs[1].1) is Some
    &&& spec_arrow_attrs(spec_no_arrow_attrs(), s, segs, 2).0 is Applied
}

/// Two attributes that apply one after the other apply the other way
/// round too, with the same result: the order of an arrow's attributes
/// does not matter.
pub proof fn lemma_arrow_attrs_commute(m: ArrowAttrsModel, s: Seq<char>, x0: int, x1: int, y0: int, y1: int)
    requires
        spec_arrow_attr(m, s, x0, x1) is Applied,
        spec_arrow_attr(spec_arrow_attr(m, s, x0, x1)->Applied_0, s, y0, y1) is Applied,
    ensures
        spec_arrow_attr(m, s, y0, y1) is Applied,
        spec_arrow_attr(spec_arrow_attr(m, s, y0, y1)->Applied_0, s, x0, x1)
            == spec_arrow_attr(spec_arrow_attr(m, s, x0, x1)->Applied_0, s, y0, y1),
{
}

/// Applies the attributes `segments[2..]` in order (empty ones skipped).
fn apply_attributes(segments: &Vec<Segment>, chars: &[char], fallback: SourceLocation) -> (r: Result<ArrowAttrs, ParseError>)
    requires
        spec_pos_ok(fallback),
        forall|j: int| 0 <= j < segments@.len() ==> #[trigger] segments@[j].start <= segments@[j].end <= chars@.len(),
        forall|j: int| 0 <= j < segments@.len() ==> spec_pos_ok(#[trigger] segments@[j].location),
    ensures
        r matches Err(e) ==> spec_pos_ok(e.location),
        match spec_arrow_attrs(spec_no_arrow_attrs(), chars@, spec_segment_spans(segments@), 2).0 {
            ArrowAttrOutcome::Applied(m) => r matches Ok(a) && a@ == m,
            _ => r is Err,
        },
        r matches Err(e) ==> {
            let (o, k) = spec_arrow_attrs(spec_no_arrow_attrs(), chars@, spec_segment_spans(segments@), 2);
            &&& 2 <= k < segments@.len()
            &&& spec_attr_error(o, chars@, segments@[k].start as int, segments@[k].end as int, segments@[k].location, fallback, e)
        },
{
    let ghost spans = spec_segment_spans(segments@);
    let mut attrs = ArrowAttrs { color: None, width: None, line: None, head: None, label: None };
    assert(attrs@ == spec_no_arrow_attrs());
    let mut k: usize = 2;
    while k < segments.len()
        invariant
            2 <= k,
            spec_pos_ok(fallback),
            spans == spec_segment_spans(segments@),
            spec_arrow_attrs(spec_no_arrow_attrs(), chars@, spans, 2) == spec_arrow_attrs(attrs@, chars@, spans, k as int),
            forall|j: int| 0 <= j < segments@.len() ==> #[trigger] segments@[j].start <= segments@[j].end <= chars@.len(),
            forall|j: int| 0 <= j < segments@.len() ==> spec_pos_ok(#[trigger] segments@[j].location),
        decreases segments.len() - k,
    {
        let seg = &segments[k];
        assert(spans[k as int] == (seg.start as int, seg.end as int));
        if seg.start < seg.end {
            let ghost before = attrs@;
            match apply_attribute(&mut attrs, chars, seg, fallback) {
                Ok(()) => {},
                Err(e) => {
                    assert(!(spec_arrow_attrs(before, chars@, spans, k as int).0 is Applied));
                    assert(spec_arrow_attrs(before, chars@, spans, k as int)
                        == (spec_arrow_attr(before, chars@, seg.start as int, seg.end as int), k as int));
                    return Err(e);
                },
            }
        }
        k = k + 1;
    }
    Ok(attrs)
}

/// Why the attribute `s[x..y]`, written at `segloc`, is refused with `e`
/// under the outcome `o`: an unknown or repeated attribute (the piece as
/// written, its place and length), or a bad label (pointed at from the
/// declaration's `@` at `fallback`).
pub open spec fn spec_attr_error(o: ArrowAttrOutcome, s: Seq<char>, x: int, y: int, segloc: SourceLocation, fallback: SourceLocation, e: ParseError) -> bool {
    match o {
        ArrowAttrOutcome::Applied(_) => false,
        ArrowAttrOutcome::Unknown => e.location == segloc && e.length == spec_clamp_u32(y - x)
            && (e.kind matches ParseErrorKind::UnknownArrowAttribute(t) && t@ == s.subrange(x, y)),
        ArrowAttrOutcome::Duplicate => e.location == segloc && e.length == spec_clamp_u32(y - x)
            && (e.kind matches ParseErrorKind::DuplicateArrowAttribute(t) && t@ == s.subrange(x, y)),
        ArrowAttrOutcome::BadLabel(te) => e.kind == ParseErrorKind::InvalidText(te)
            && e.location == spec_shifted(fallback, te->char_offset) && e.length == 1,
    }
}

/// Why the endpoint `s[a..b]`, written at `location`, is refused with `e`:
/// the fault of its anchor identifier, or, when it is not `@` and a whole
/// identifier, the piece as written.
pub open spec fn spec_end_error(s: Seq<char>, a: int, b: int, location: SourceLocation, e: ParseError) -> bool {
    if a < b && s[a] == '@' && spec_scan_anchor(s, a + 1, b) is None {
        spec_anchor_error(s, a + 1, b, location, e)
    } else {
        e.kind == ParseErrorKind::InvalidArrowSyntax && e.location == location
            && e.length == if a == b { 1 } else { spec_clamp_u32(b - a) }
    }
}

/// Where the piece `segs[k]` of the declaration with arguments `s[a..b]`
/// (its `@` at `location`, its head at `head`, the inside of the
/// parentheses from `ia`) is written.
pub open spec fn spec_segment_location(location: SourceLocation, a: int, head: int, ia: int, x: int) -> SourceLocation {
    let head_column = spec_sat_add(spec_sat_add(location.column, 3), spec_clamp_u32(head - a));
    spec_shifted(SourceLocation { line: location.line, column: spec_sat_add(head_column, 1) }, spec_clamp_u32(x - ia))
}

/// Why the label `text` of an arrow, with the attributes `m`, is refused
/// with `e` (the declaration's `@` at `location`, the label written at
/// `s[la..lb]`): a forbidden character (pointed at), or a label given
/// twice.
pub open spec fn spec_label_error(text: Seq<char>, m: ArrowAttrsModel, s: Seq<char>, la: int, lb: int, location: SourceLocation, e: ParseError) -> bool {
    match spec_text_error(text) {
        Some(te) => e.kind == ParseErrorKind::InvalidText(te) && e.location == spec_shifted(location, te->char_offset) && e.length == 1,
        None => m.label is Some && e.location == location && e.length == spec_clamp_u32(lb - la)
            && (e.kind matches ParseErrorKind::DuplicateArrowAttribute(t) && t@ == s.subrange(la, lb)),
    }
}

/// Why the arrow declaration with arguments `s[a..b]` (its `@` at
/// `location`, on line `index`) is refused with `e`, in the order it is
/// read: no parenthesised head, fewer than two pieces, a bad start, a bad
/// end, a bad attribute, then a bad or repeated label.
pub open spec fn spec_arrow_error(s: Seq<char>, lines: Seq<(usize, usize)>, index: int, a: int, b: int, location: SourceLocation, e: ParseError) -> bool {
    let t = spec_trim(s, a, b);
    let parts = spec_arrow_split(s, t.0, t.1);
    let head = parts.0;
    let lab = parts.1;
    match spec_strip_parens(s, head.0, head.1) {
        None => e.kind == ParseErrorKind::InvalidArrowSyntax && e.location == location
            && e.length == if spec_clamp_u32(head.1 - head.0) == 0 { 1 } else { spec_clamp_u32(head.1 - head.0) },
        Some((ia, ib)) => {
            let segs = spec_segments(s, ia, ib);
            if segs.len() < 2 {
                e.kind == ParseErrorKind::InvalidArrowSyntax && e.location == location && e.length == 1
            } else if spec_arrow_end(s, segs[0].0, segs[0].1) is None {
                spec_end_error(s, segs[0].0, segs[0].1, spec_segment_location(location, a, head.0, ia, segs[0].0), e)
            } else if spec_arrow_end(s, segs[1].0, segs[1].1) is None {
                spec_end_error(s, segs[1].0, segs[1].1, spec_segment_location(location, a, head.0, ia, segs[1].0), e)
            } else {
                match spec_arrow_attrs(spec_no_arrow_attrs(), s, segs, 2) {
                    (ArrowAttrOutcome::Applied(m), _) => lab.0 != lab.1 && if s[lab.0] == '"' {
                        match spec_quoted_raw(s, lines, index, lab.0 + 1, lab.1) {
                            None => e.kind == ParseErrorKind::UnclosedQuote && e.location == location && e.length == 1,
                            Some((raw, _, _, _)) => spec_label_error(spec_unescape(raw), m, s, lab.0, lab.1, location, e),
                        }
                    } else {
                        spec_label_error(s.subrange(lab.0, lab.1), m, s, lab.0, lab.1, location, e)
                    },
                    (other, k) => spec_attr_error(other, s, segs[k].0, segs[k].1,
                        spec_segment_location(location, a, head.0, ia, segs[k].0), location, e),
                }
            }
        },
    }
}

/// What the arrow declaration `@->` with arguments `s[a..b]` (on line
/// `index`) reads into `arrow`, taking `consumed` source lines: its two
/// ends, its style (from its attributes, else the signal colour and
/// width), the current font for its label, and the label given by
/// attribute or after the closing parenthesis (quoted, it may run over the
/// following lines).
pub open spec fn spec_arrow_read(
    s: Seq<char>,
    lines: Seq<(usize, usize)>,
    index: int,
    a: int,
    b: int,
    default_color: Color,
    default_width: Px,
    font: FontSpec,
    arrow: PendingArrow,
    consumed: int,
) -> bool {
    let segs = spec_arrow_segments(s, a, b);
    let lab = spec_arrow_label(s, a, b);
    let attrs = spec_arrow_attrs(spec_no_arrow_attrs(), s, segs, 2).0->Applied_0;
    &&& spec_arrow_head_ok(s, a, b)
    &&& spec_arrow_end(s, segs[0].0, segs[0].1) == Some(spec_end_key(arrow.from))
    &&& spec_arrow_end(s, segs[1].0, segs[1].1) == Some(spec_end_key(arrow.to))
    &&& arrow.style == spec_arrow_style(attrs, default_color, default_width)
    &&& arrow.label_font.family@ == font.family@ && arrow.label_font.size == font.size
    &&& lab.0 == lab.1 ==> consumed == 1 && spec_label_chars(arrow.label) == attrs.label
    &&& lab.0 != lab.1 ==> attrs.label is None && arrow.label is Some
    &&& lab.0 != lab.1 && s[lab.0] != '"' ==> consumed == 1 && spec_label_chars(arrow.label) == Some(s.subrange(lab.0, lab.1))
    &&& lab.0 != lab.1 && s[lab.0] == '"' ==> (spec_quoted_raw(s, lines, index, lab.0 + 1, lab.1)
        matches Some((raw, c, _, _)) && consumed == c && spec_label_chars(arrow.label) == Some(spec_unescape(raw)))
}

/// When the arrow declaration with arguments `s[a..b]` is accepted: its
/// head reads as two ends with valid attributes, and a trailing label
/// (when the attributes gave none) is valid text.
pub open spec fn spec_arrow_accepted(s: Seq<char>, lines: Seq<(usize, usize)>, index: int, a: int, b: int) -> bool {
    let lab = spec_arrow_label(s, a, b);
    let segs = spec_arrow_segments(s, a, b);
    &&& spec_arrow_head_ok(s, a, b)
    &&& lab.0 != lab.1 ==> {
        &&& spec_arrow_attrs(spec_no_arrow_attrs(), s, segs, 2).0->Applied_0.label is None
        &&& s[lab.0] != '"' ==> forall|k: int| lab.0 <= k < lab.1 ==> !spec_is_forbidden(#[trigger] s[k])
        &&& s[lab.0] == '"' ==> (spec_quoted_raw(s, lines, index, lab.0 + 1, lab.1)
            matches Some((raw, _, _, _)) && forall|k: int| 0 <= k < spec_unescape(raw).len()
            ==> !spec_is_forbidden(#[trigger] spec_unescape(raw)[k]))
    }
}

/// Reads the arrow declaration whose arguments (the text after `@->`) are
/// `src.chars[args_start..args_end]` on line `index`; `location` is the
/// column of the `@`. Unset style attributes take the given defaults. A
/// quoted trailing label may go on over the next lines; the number of
/// lines read is returned with the arrow.
#[verifier::rlimit(40)]
pub fn parse_arrow(
    src: &Source,
    index: usize,
    args_start: usize,
    args_end: usize,
    location: SourceLocation,
    default_color: Color,
    default_width: Px,
    font: &FontSpec,
) -> (r: Result<(PendingArrow, usize), ParseError>)
    requires
        spec_pos_ok(location),
        src.wf(),
        index < src.lines@.len(),
        args_start <= args_end <= src.chars@.len(),
    ensures
        r matches Err(e) ==> spec_pos_ok(e.location),
        r matches Ok((_, consumed)) ==> consumed >= 1 && index + consumed <= src.lines@.len(),
        r matches Ok((arrow, _)) ==> spec_pos_ok(arrow.from_location) && spec_pos_ok(arrow.to_location),
        r matches Ok((arrow, consumed)) ==> spec_arrow_read(src.chars@, src.lines@, index as int, args_start as int, args_end as int,
            default_color, default_width, *font, arrow, consumed as int),
        spec_arrow_accepted(src.chars@, src.lines@, index as int, args_start as int, args_end as int) <==> r is Ok,
        r matches Err(e) ==> spec_arrow_error(src.chars@, src.lines@, index as int, args_start as int, args_end as int, location, e),
{
    let chars = &src.chars;
    let (t0, t1) = trim_span(chars, args_start, args_end);
    let (head, label) = match rfind_char(chars, t0, t1, ')') {
        Some(c) => (trim_span(chars, t0, c + 1), trim_span(chars, c + 1, t1)),
        None => ((t0, t1), (t1, t1)),
    };
    let (inner_start, inner_end) = match strip_parens(chars, head.0, head.1) {
        Some(p) => p,
        None => {
            let length = clamp_u32(head.1 - head.0);
            return Err(ParseError::with_length(location, if length == 0 { 1 } else { length }, ParseErrorKind::InvalidArrowSyntax));
        },
    };
    let head_column = location.column.saturating_add(3).saturating_add(clamp_u32(head.0 - args_start));
    let inner_location = SourceLocation::new(location.line, head_column.saturating_add(1));
    let segments = split_segments(chars, inner_start, inner_end, inner_location);
    if segments.len() < 2 {
        return Err(ParseError::new(location, ParseErrorKind::InvalidArrowSyntax));
    }
    let from_seg = &segments[0];
    let to_seg = &segments[1];
    let from = parse_end(chars, from_seg.start, from_seg.end, from_seg.location)?;
    let to = parse_end(chars, to_seg.start, to_seg.end, to_seg.location)?;
    let mut attrs = apply_attributes(&segments, chars, location)?;
    let mut consumed: usize = 1;
    let (la, lb) = label;
    if la < lb {
        let text: Vec<char> = if chars[la] == '"' {
            let token = collect_quoted(src, index, la + 1, lb, location)?;
            consumed = token.consumed_lines;
            token.text
        } else {
            crate::chars::sub_vec(chars, la, lb)
        };
        let user_text = match UserText::parse_all(&text) {
            Ok(t) => t,
            Err(e) => {
                let offset = match e.char_offset() {
                    Some(o) => o,
                    None => 0,
                };
                return Err(ParseError::with_length(location.shifted(offset), 1, ParseErrorKind::InvalidText(e)));
            },
        };
        if attrs.label.is_some() {
            return Err(ParseError::with_length(
                location,
                clamp_u32(lb - la),
                ParseErrorKind::DuplicateArrowAttribute(string_of(chars, la, lb)),
            ));
        }
        proof {
            if chars@[la as int] != '"' {
                assert forall|k: int| la <= k < lb implies !spec_is_forbidden(#[trigger] chars@[k]) by {
                    assert(text@[k - la] == chars@[k]);
                }
            }
        }
        attrs.label = Some(user_text);
    }
    let style = ArrowStyle {
        color: match attrs.color {
            Some(c) => c,
            None => default_color,
        },
        width: match attrs.width {
            Some(w) => w,
            None => default_width,
        },
        line: match attrs.line {
            Some(l) => l,
            None => LineDashStyle::Solid,
        },
        head: match attrs.head {
            Some(h) => h,
            None => ArrowHead::EndOnly,
        },
    };
    let arrow = PendingArrow {
        from,
        to,
        style,
        label: attrs.label,
        label_font: font.duplicate(),
        from_location: from_seg.location,
        to_location: to_seg.location,
    };
    Ok((arrow, consumed))
}

} // verus!
