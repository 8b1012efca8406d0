//! Value directives: `@name value` lines that set one style parameter.

use vstd::prelude::*;
use crate::chars::{clamp_u32, push_str, span_eq, span_eq_ignore_case, spec_eq_ignore_case, spec_trim, string_of, sub_vec, trim_span};
use crate::color::{Color, spec_color};
use crate::errors::{ColorError, LengthError, ParseError, ParseErrorKind, SourceLocation, TextError, spec_clamp_u32, spec_pos_ok};
use crate::number::{Number, parse_number, spec_number};
use crate::style::{HorizontalAlign, SvgAttrList, spec_align_word, spec_pair_models, spec_svg_fault_kind, spec_svg_pairs};
use crate::text::{FontFamily, spec_text_error};
use crate::units::{Px, Ratio};
use super::attr::{normalise, spec_normalise};

verus! {

/// Which value directive a normalised `@name` selects.
#[derive(Debug, Clone, Copy, PartialEq, Eq, Structural)]
pub enum ParamKind {
    FontSize,
    LineHeight,
    CapWidth,
    NamePad,
    Scale,
    PageMargin,
    Step,
    Slant,
    SignalGap,
    Font,
    SignalColor,
    SignalWidth,
    GuideColor,
    GuideWidth,
    Bg,
    BgColor0,
    BgColor1,
    HighlightStyle,
    DontcareColor,
    TitleAlign,
    ClockmarkPosition,
    ClockmarkHeight,
    ClockmarkWidth,
    ClockmarkColor,
    OverlineGap,
    OverlineThickness,
    Ruler,
    RulerColor,
}

/// The directive named by a normalised name (aliases included).
pub open spec fn spec_param_kind(n: Seq<char>) -> Option<ParamKind> {
    if n == seq!['f', 'o', 'n', 't', 's', 'i', 'z', 'e'] || n == seq!['f', 'o', 'n', 't', '_', 's', 'i', 'z', 'e'] {
        Some(ParamKind::FontSize)
    } else if n == seq!['l', 'i', 'n', 'e', 'h', 'e', 'i', 'g', 'h', 't'] || n == seq!['l', 'i', 'n', 'e', '_', 'h', 'e', 'i', 'g', 'h', 't'] {
        Some(ParamKind::LineHeight)
    } else if n == seq!['c', 'a', 'p', 'w', 'i', 'd', 't', 'h'] || n == seq!['c', 'a', 'p', '_', 'w', 'i', 'd', 't', 'h'] {
        Some(ParamKind::CapWidth)
    } else if n == seq!['n', 'a', 'm', 'e', 'p', 'a', 'd'] || n == seq!['n', 'a', 'm', 'e', '_', 'p', 'a', 'd'] {
        Some(ParamKind::NamePad)
    } else if n == seq!['s', 'c', 'a', 'l', 'e'] {
        Some(ParamKind::Scale)
    } else if n == seq!['p', 'a', 'g', 'e', '_', 'm', 'a', 'r', 'g', 'i', 'n'] {
        Some(ParamKind::PageMargin)
    } else if n == seq!['s', 't', 'e', 'p'] {
        Some(ParamKind::Step)
    } else if n == seq!['s', 'l', 'a', 'n', 't'] {
        Some(ParamKind::Slant)
    } else if n == seq!['h', '_', 's', 'p', 'a', 'c', 'e'] || n == seq!['s', 'i', 'g', 'n', 'a', 'l', '_', 'g', 'a', 'p'] {
        Some(ParamKind::SignalGap)
    } else if n == seq!['f', 'o', 'n', 't'] {
        Some(ParamKind::Font)
    } else if n == seq!['s', 'i', 'g', 'n', 'a', 'l', '_', 'c', 'o', 'l', 'o', 'r'] {
        Some(ParamKind::SignalColor)
    } else if n == seq!['s', 'i', 'g', 'n', 'a', 'l', '_', 'w', 'i', 'd', 't', 'h'] {
        Some(ParamKind::SignalWidth)
    } else if n == seq!['g', 'u', 'i', 'd', 'e', '_', 'c', 'o', 'l', 'o', 'r'] {
        Some(ParamKind::GuideColor)
    } else if n == seq!['g', 'u', 'i', 'd', 'e', '_', 'w', 'i', 'd', 't', 'h'] {
        Some(ParamKind::GuideWidth)
    } else if n == seq!['b', 'g'] {
        Some(ParamKind::Bg)
    } else if n == seq!['b', 'g', 'c', 'o', 'l', 'o', 'r', '0'] {
        Some(ParamKind::BgColor0)
    } else if n == seq!['b', 'g', 'c', 'o', 'l', 'o', 'r', '1'] {
        Some(ParamKind::BgColor1)
    } else if n == seq!['h', 'i', 'g', 'h', 'l', 'i', 'g', 'h', 't', '_', 's', 't', 'y', 'l', 'e'] {
        Some(ParamKind::HighlightStyle)
    } else if n == seq!['d', 'o', 'n', 't', 'c', 'a', 'r', 'e', '_', 'c', 'o', 'l', 'o', 'r'] {
        Some(ParamKind::DontcareColor)
    } else if n == seq!['t', 'i', 't', 'l', 'e', 'a', 'l', 'i', 'g', 'n'] || n == seq!['t', 'i', 't', 'l', 'e', '_', 'a', 'l', 'i', 'g', 'n'] {
        Some(ParamKind::TitleAlign)
    } else if n == seq!['c', 'l', 'o', 'c', 'k', 'm', 'a', 'r', 'k', '_', 'p', 'o', 's', 'i', 't', 'i', 'o', 'n'] {
        Some(ParamKind::ClockmarkPosition)
    } else if n == seq!['c', 'l', 'o', 'c', 'k', 'm', 'a', 'r', 'k', '_', 'h', 'e', 'i', 'g', 'h', 't'] {
        Some(ParamKind::ClockmarkHeight)
    } else if n == seq!['c', 'l', 'o', 'c', 'k', 'm', 'a', 'r', 'k', '_', 'w', 'i', 'd', 't', 'h'] {
        Some(ParamKind::ClockmarkWidth)
    } else if n == seq!['c', 'l', 'o', 'c', 'k', 'm', 'a', 'r', 'k', '_', 'c', 'o', 'l', 'o', 'r'] {
        Some(ParamKind::ClockmarkColor)
    } else if n == seq!['o', 'v', 'e', 'r', 'l', 'i', 'n', 'e', '_', 'g', 'a', 'p'] {
        Some(ParamKind::OverlineGap)
    } else if n == seq!['o', 'v', 'e', 'r', 'l', 'i', 'n', 'e', '_', 't', 'h', 'i', 'c', 'k', 'n', 'e', 's', 's'] {
        Some(ParamKind::OverlineThickness)
    } else if n == seq!['r', 'u', 'l', 'e', 'r'] {
        Some(ParamKind::Ruler)
    } else if n == seq!['r', 'u', 'l', 'e', 'r', '_', 'c', 'o', 'l', 'o', 'r'] {
        Some(ParamKind::RulerColor)
    } else {
        None
    }
}

fn param_kind(n: &Vec<char>) -> (r: Option<ParamKind>)
    ensures
        r == spec_param_kind(n@),
{
    let len = n.len();
    assert(n@.subrange(0, len as int) =~= n@);
    assert(['f', 'o', 'n', 't', 's', 'i', 'z', 'e']@ =~= seq!['f', 'o', 'n', 't', 's', 'i', 'z', 'e']);
    assert(['f', 'o', 'n', 't', '_', 's', 'i', 'z', 'e']@ =~= seq!['f', 'o', 'n', 't', '_', 's', 'i', 'z', 'e']);
    assert(['l', 'i', 'n', 'e', 'h', 'e', 'i', 'g', 'h', 't']@ =~= seq!['l', 'i', 'n', 'e', 'h', 'e', 'i', 'g', 'h', 't']);
    assert(['l', 'i', 'n', 'e', '_', 'h', 'e', 'i', 'g', 'h', 't']@ =~= seq!['l', 'i', 'n', 'e', '_', 'h', 'e', 'i', 'g', 'h', 't']);
    assert(['c', 'a', 'p', 'w', 'i', 'd', 't', 'h']@ =~= seq!['c', 'a', 'p', 'w', 'i', 'd', 't', 'h']);
    assert(['c', 'a', 'p', '_', 'w', 'i', 'd', 't', 'h']@ =~= seq!['c', 'a', 'p', '_', 'w', 'i', 'd', 't', 'h']);
    assert(['n', 'a', 'm', 'e', 'p', 'a', 'd']@ =~= seq!['n', 'a', 'm', 'e', 'p', 'a', 'd']);
    assert(['n', 'a', 'm', 'e', '_', 'p', 'a', 'd']@ =~= seq!['n', 'a', 'm', 'e', '_', 'p', 'a', 'd']);
    assert(['s', 'c', 'a', 'l', 'e']@ =~= seq!['s', 'c', 'a', 'l', 'e']);
    assert(['p', 'a', 'g', 'e', '_', 'm', 'a', 'r', 'g', 'i', 'n']@ =~= seq!['p', 'a', 'g', 'e', '_', 'm', 'a', 'r', 'g', 'i', 'n']);
    assert(['s', 't', 'e', 'p']@ =~= seq!['s', 't', 'e', 'p']);
    assert(['s', 'l', 'a', 'n', 't']@ =~= seq!['s', 'l', 'a', 'n', 't']);
    assert(['h', '_', 's', 'p', 'a', 'c', 'e']@ =~= seq!['h', '_', 's', 'p', 'a', 'c', 'e']);
    assert(['s', 'i', 'g', 'n', 'a', 'l', '_', 'g', 'a', 'p']@ =~= seq!['s', 'i', 'g', 'n', 'a', 'l', '_', 'g', 'a', 'p']);
    assert(['f', 'o', 'n', 't']@ =~= seq!['f', 'o', 'n', 't']);
    assert(['s', 'i', 'g', 'n', 'a', 'l', '_', 'c', 'o', 'l', 'o', 'r']@ =~= seq!['s', 'i', 'g', 'n', 'a', 'l', '_', 'c', 'o', 'l', 'o', 'r']);
    assert(['s', 'i', 'g', 'n', 'a', 'l', '_', 'w', 'i', 'd', 't', 'h']@ =~= seq!['s', 'i', 'g', 'n', 'a', 'l', '_', 'w', 'i', 'd', 't', 'h']);
    assert(['g', 'u', 'i', 'd', 'e', '_', 'c', 'o', 'l', 'o', 'r']@ =~= seq!['g', 'u', 'i', 'd', 'e', '_', 'c', 'o', 'l', 'o', 'r']);
    assert(['g', 'u', 'i', 'd', 'e', '_', 'w', 'i', 'd', 't', 'h']@ =~= seq!['g', 'u', 'i', 'd', 'e', '_', 'w', 'i', 'd', 't', 'h']);
    assert(['b', 'g']@ =~= seq!['b', 'g']);
    assert(['b', 'g', 'c', 'o', 'l', 'o', 'r', '0']@ =~= seq!['b', 'g', 'c', 'o', 'l', 'o', 'r', '0']);
    assert(['b', 'g', 'c', 'o', 'l', 'o', 'r', '1']@ =~= seq!['b', 'g', 'c', 'o', 'l', 'o', 'r', '1']);
    assert(['h', 'i', 'g', 'h', 'l', 'i', 'g', 'h', 't', '_', 's', 't', 'y', 'l', 'e']@ =~= seq!['h', 'i', 'g', 'h', 'l', 'i', 'g', 'h', 't', '_', 's', 't', 'y', 'l', 'e']);
    assert(['d', 'o', 'n', 't', 'c', 'a', 'r', 'e', '_', 'c', 'o', 'l', 'o', 'r']@ =~= seq!['d', 'o', 'n', 't', 'c', 'a', 'r', 'e', '_', 'c', 'o', 'l', 'o', 'r']);
    assert(['t', 'i', 't', 'l', 'e', 'a', 'l', 'i', 'g', 'n']@ =~= seq!['t', 'i', 't', 'l', 'e', 'a', 'l', 'i', 'g', 'n']);
    assert(['t', 'i', 't', 'l', 'e', '_', 'a', 'l', 'i', 'g', 'n']@ =~= seq!['t', 'i', 't', 'l', 'e', '_', 'a', 'l', 'i', 'g', 'n']);
    assert(['c', 'l', 'o', 'c', 'k', 'm', 'a', 'r', 'k', '_', 'p', 'o', 's', 'i', 't', 'i', 'o', 'n']@ =~= seq!['c', 'l', 'o', 'c', 'k', 'm', 'a', 'r', 'k', '_', 'p', 'o', 's', 'i', 't', 'i', 'o', 'n']);
    assert(['c', 'l', 'o', 'c', 'k', 'm', 'a', 'r', 'k', '_', 'h', 'e', 'i', 'g', 'h', 't']@ =~= seq!['c', 'l', 'o', 'c', 'k', 'm', 'a', 'r', 'k', '_', 'h', 'e', 'i', 'g', 'h', 't']);
    assert(['c', 'l', 'o', 'c', 'k', 'm', 'a', 'r', 'k', '_', 'w', 'i', 'd', 't', 'h']@ =~= seq!['c', 'l', 'o', 'c', 'k', 'm', 'a', 'r', 'k', '_', 'w', 'i', 'd', 't', 'h']);
    assert(['c', 'l', 'o', 'c', 'k', 'm', 'a', 'r', 'k', '_', 'c', 'o', 'l', 'o', 'r']@ =~= seq!['c', 'l', 'o', 'c', 'k', 'm', 'a', 'r', 'k', '_', 'c', 'o', 'l', 'o', 'r']);
    assert(['o', 'v', 'e', 'r', 'l', 'i', 'n', 'e', '_', 'g', 'a', 'p']@ =~= seq!['o', 'v', 'e', 'r', 'l', 'i', 'n', 'e', '_', 'g', 'a', 'p']);
    assert(['o', 'v', 'e', 'r', 'l', 'i', 'n', 'e', '_', 't', 'h', 'i', 'c', 'k', 'n', 'e', 's', 's']@ =~= seq!['o', 'v', 'e', 'r', 'l', 'i', 'n', 'e', '_', 't', 'h', 'i', 'c', 'k', 'n', 'e', 's', 's']);
    assert(['r', 'u', 'l', 'e', 'r']@ =~= seq!['r', 'u', 'l', 'e', 'r']);
    assert(['r', 'u', 'l', 'e', 'r', '_', 'c', 'o', 'l', 'o', 'r']@ =~= seq!['r', 'u', 'l', 'e', 'r', '_', 'c', 'o', 'l', 'o', 'r']);
    if span_eq(n, 0, len, &['f', 'o', 'n', 't', 's', 'i', 'z', 'e']) || span_eq(n, 0, len, &['f', 'o', 'n', 't', '_', 's', 'i', 'z', 'e']) {
        Some(ParamKind::FontSize)
    } else if span_eq(n, 0, len, &['l', 'i', 'n', 'e', 'h', 'e', 'i', 'g', 'h', 't']) || span_eq(n, 0, len, &['l', 'i', 'n', 'e', '_', 'h', 'e', 'i', 'g', 'h', 't']) {
        Some(ParamKind::LineHeight)
    } else if span_eq(n, 0, len, &['c', 'a', 'p', 'w', 'i', 'd', 't', 'h']) || span_eq(n, 0, len, &['c', 'a', 'p', '_', 'w', 'i', 'd', 't', 'h']) {
        Some(ParamKind::CapWidth)
    } else if span_eq(n, 0, len, &['n', 'a', 'm', 'e', 'p', 'a', 'd']) || span_eq(n, 0, len, &['n', 'a', 'm', 'e', '_', 'p', 'a', 'd']) {
        Some(ParamKind::NamePad)
    } else if span_eq(n, 0, len, &['s', 'c', 'a', 'l', 'e']) {
        Some(ParamKind::Scale)
    } else if span_eq(n, 0, len, &['p', 'a', 'g', 'e', '_', 'm', 'a', 'r', 'g', 'i', 'n']) {
        Some(ParamKind::PageMargin)
    } else if span_eq(n, 0, len, &['s', 't', 'e', 'p']) {
        Some(ParamKind::Step)
    } else if span_eq(n, 0, len, &['s', 'l', 'a', 'n', 't']) {
        Some(ParamKind::Slant)
    } else if span_eq(n, 0, len, &['h', '_', 's', 'p', 'a', 'c', 'e']) || span_eq(n, 0, len, &['s', 'i', 'g', 'n', 'a', 'l', '_', 'g', 'a', 'p']) {
        Some(ParamKind::SignalGap)
    } else if span_eq(n, 0, len, &['f', 'o', 'n', 't']) {
        Some(ParamKind::Font)
    } else if span_eq(n, 0, len, &['s', 'i', 'g', 'n', 'a', 'l', '_', 'c', 'o', 'l', 'o', 'r']) {
        Some(ParamKind::SignalColor)
    } else if span_eq(n, 0, len, &['s', 'i', 'g', 'n', 'a', 'l', '_', 'w', 'i', 'd', 't', 'h']) {
        Some(ParamKind::SignalWidth)
    } else if span_eq(n, 0, len, &['g', 'u', 'i', 'd', 'e', '_', 'c', 'o', 'l', 'o', 'r']) {
        Some(ParamKind::GuideColor)
    } else if span_eq(n, 0, len, &['g', 'u', 'i', 'd', 'e', '_', 'w', 'i', 'd', 't', 'h']) {
        Some(ParamKind::GuideWidth)
    } else if span_eq(n, 0, len, &['b', 'g']) {
        Some(ParamKind::Bg)
    } else if span_eq(n, 0, len, &['b', 'g', 'c', 'o', 'l', 'o', 'r', '0']) {
        Some(ParamKind::BgColor0)
    } else if span_eq(n, 0, len, &['b', 'g', 'c', 'o', 'l', 'o', 'r', '1']) {
        Some(ParamKind::BgColor1)
    } else if span_eq(n, 0, len, &['h', 'i', 'g', 'h', 'l', 'i', 'g', 'h', 't', '_', 's', 't', 'y', 'l', 'e']) {
        Some(ParamKind::HighlightStyle)
    } else if span_eq(n, 0, len, &['d', 'o', 'n', 't', 'c', 'a', 'r', 'e', '_', 'c', 'o', 'l', 'o', 'r']) {
        Some(ParamKind::DontcareColor)
    } else if span_eq(n, 0, len, &['t', 'i', 't', 'l', 'e', 'a', 'l', 'i', 'g', 'n']) || span_eq(n, 0, len, &['t', 'i', 't', 'l', 'e', '_', 'a', 'l', 'i', 'g', 'n']) {
        Some(ParamKind::TitleAlign)
    } else if span_eq(n, 0, len, &['c', 'l', 'o', 'c', 'k', 'm', 'a', 'r', 'k', '_', 'p', 'o', 's', 'i', 't', 'i', 'o', 'n']) {
        Some(ParamKind::ClockmarkPosition)
    } else if span_eq(n, 0, len, &['c', 'l', 'o', 'c', 'k', 'm', 'a', 'r', 'k', '_', 'h', 'e', 'i', 'g', 'h', 't']) {
        Some(ParamKind::ClockmarkHeight)
    } else if span_eq(n, 0, len, &['c', 'l', 'o', 'c', 'k', 'm', 'a', 'r', 'k', '_', 'w', 'i', 'd', 't', 'h']) {
        Some(ParamKind::ClockmarkWidth)
    } else if span_eq(n, 0, len, &['c', 'l', 'o', 'c', 'k', 'm', 'a', 'r', 'k', '_', 'c', 'o', 'l', 'o', 'r']) {
        Some(ParamKind::ClockmarkColor)
    } else if span_eq(n, 0, len, &['o', 'v', 'e', 'r', 'l', 'i', 'n', 'e', '_', 'g', 'a', 'p']) {
        Some(ParamKind::OverlineGap)
    } else if span_eq(n, 0, len, &['o', 'v', 'e', 'r', 'l', 'i', 'n', 'e', '_', 't', 'h', 'i', 'c', 'k', 'n', 'e', 's', 's']) {
        Some(ParamKind::OverlineThickness)
    } else if span_eq(n, 0, len, &['r', 'u', 'l', 'e', 'r']) {
        Some(ParamKind::Ruler)
    } else if span_eq(n, 0, len, &['r', 'u', 'l', 'e', 'r', '_', 'c', 'o', 'l', 'o', 'r']) {
        Some(ParamKind::RulerColor)
    } else {
        None
    }
}

/// One parsed value directive.
pub enum Directive {
    FontSize(Px),
    LineHeight(Ratio),
    /// `None` when the width is zero or negative (automatic width).
    CapWidth(Option<Px>),
    NamePad(Px),
    Scale(Ratio),
    PageMargin(Px),
    Step(Px),
    Slant(Px),
    SignalGap(Px),
    Font(FontFamily),
    SignalColor(Color),
    SignalWidth(Px),
    GuideColor(Color),
    GuideWidth(Px),
    /// `None` for `@bg none`.
    Bg(Option<Color>),
    BgColor0(Color),
    BgColor1(Color),
    HighlightStyle(SvgAttrList),
    DontcareColor(Color),
    TitleAlign(HorizontalAlign),
    ClockmarkPosition(Ratio),
    ClockmarkHeight(Px),
    ClockmarkWidth(Px),
    ClockmarkColor(Color),
    OverlineGap(Px),
    OverlineThickness(Px),
    Ruler(bool),
    RulerColor(Color),
}

/// A `String` holding `s`.
pub fn owned(s: &str) -> (r: String)
    ensures
        r@ == s@,
{
    let mut r = String::new();
    push_str(&mut r, s);
    r
}

/// Largest magnitude, in units, of a numeric directive value.
pub const MAX_VALUE_UNITS: u32 = 1_000_000_000;

/// How a numeric directive value reads: the value in millionths, or why
/// it is rejected.
pub open spec fn spec_numeric(s: Seq<char>, start: int, end: int) -> Result<i64, ()> {
    let (a, b) = spec_trim(s, start, end);
    match spec_number(s, a, b) {
        Some(Number::Value { micros }) => Ok(micros),
        _ => Err(()),
    }
}

/// Reads the trimmed numeric value of `chars[start..end]` for directive
/// `field`: unreadable literals, non-finite values and magnitudes above
/// `MAX_VALUE_UNITS` are rejected.
pub fn finite_value(field: &str, chars: &[char], start: usize, end: usize) -> (r: Result<i64, ParseErrorKind>)
    requires
        start <= end <= chars@.len(),
    ensures
        r matches Ok(m) ==> spec_numeric(chars@, start as int, end as int) == Ok::<i64, ()>(m),
        r is Err ==> spec_numeric(chars@, start as int, end as int) is Err,
        r matches Err(k) ==> {
            let (a, b) = spec_trim(chars@, start as int, end as int);
            match spec_number(chars@, a, b) {
                None => k matches ParseErrorKind::NumericNotParseable(f, t) && f@ == field@ && t@ == chars@.subrange(a, b),
                Some(Number::NotFinite) => k == ParseErrorKind::InvalidLength(LengthError::NotFinite),
                _ => k is NumericOverflow,
            }
        },
        r matches Err(k) ==> spec_numeric_refusal(field@, chars@, start as int, end as int, 0, k),
{
    let (a, b) = trim_span(chars, start, end);
    match parse_number(chars, a, b) {
        None => Err(ParseErrorKind::NumericNotParseable(owned(field), string_of(chars, a, b))),
        Some(Number::NotFinite) => Err(ParseErrorKind::InvalidLength(LengthError::NotFinite)),
        Some(Number::TooLarge { .. }) => Err(ParseErrorKind::NumericOverflow(owned(field), string_of(chars, a, b), MAX_VALUE_UNITS)),
        Some(Number::Value { micros }) => Ok(micros),
    }
}

/// A strictly positive numeric value.
pub fn positive_value(field: &str, chars: &[char], start: usize, end: usize) -> (r: Result<i64, ParseErrorKind>)
    requires
        start <= end <= chars@.len(),
    ensures
        r matches Ok(m) ==> spec_numeric(chars@, start as int, end as int) == Ok::<i64, ()>(m) && m > 0,
        r is Err ==> (spec_numeric(chars@, start as int, end as int) matches Ok(m) ==> m <= 0),
        r matches Err(k) ==> spec_numeric_refusal(field@, chars@, start as int, end as int, 1, k),
{
    let m = finite_value(field, chars, start, end)?;
    if m <= 0 {
        return Err(ParseErrorKind::NumericNotPositive(owned(field), Ratio { micros: m }));
    }
    Ok(m)
}

/// A numeric value that is zero or more.
pub fn non_negative_value(field: &str, chars: &[char], start: usize, end: usize) -> (r: Result<i64, ParseErrorKind>)
    requires
        start <= end <= chars@.len(),
    ensures
        r matches Ok(m) ==> spec_numeric(chars@, start as int, end as int) == Ok::<i64, ()>(m) && m >= 0,
        r is Err ==> (spec_numeric(chars@, start as int, end as int) matches Ok(m) ==> m < 0),
        r matches Err(k) ==> spec_numeric_refusal(field@, chars@, start as int, end as int, 2, k),
{
    let m = finite_value(field, chars, start, end)?;
    if m < 0 {
        return Err(ParseErrorKind::NumericNotNonNegative(owned(field), Ratio { micros: m }));
    }
    Ok(m)
}

fn color_value(chars: &[char], start: usize, end: usize) -> (r: Result<Color, ParseErrorKind>)
    requires
        start <= end <= chars@.len(),
    ensures
        ({
            let (a, b) = spec_trim(chars@, start as int, end as int);
            match crate::color::spec_color(chars@, a, b) {
                Ok(c) => r == Ok::<Color, ParseErrorKind>(c),
                Err(e) => r == Err::<Color, ParseErrorKind>(ParseErrorKind::InvalidColor(e)),
            }
        }),
{
    let (a, b) = trim_span(chars, start, end);
    match Color::parse(chars, a, b) {
        Ok(c) => Ok(c),
        Err(e) => Err(ParseErrorKind::InvalidColor(e)),
    }
}

/// Why a numeric value `s[start..end]` for directive `field` is refused
/// (`bound`: 0 for any finite value, 1 for a positive one, 2 for one of
/// zero or more): `e` names the unreadable text, the non-finite value,
/// the magnitude over `MAX_VALUE_UNITS`, or the value out of bounds.
pub open spec fn spec_numeric_refusal(field: Seq<char>, s: Seq<char>, start: int, end: int, bound: int, e: ParseErrorKind) -> bool {
    let (a, b) = spec_trim(s, start, end);
    match spec_number(s, a, b) {
        None => e matches ParseErrorKind::NumericNotParseable(f, t) && f@ == field && t@ == s.subrange(a, b),
        Some(Number::NotFinite) => e == ParseErrorKind::InvalidLength(LengthError::NotFinite),
        Some(Number::TooLarge { .. }) => e matches ParseErrorKind::NumericOverflow(f, t, m) && f@ == field
            && t@ == s.subrange(a, b) && m == MAX_VALUE_UNITS,
        Some(Number::Value { micros }) => if bound == 1 {
            e matches ParseErrorKind::NumericNotPositive(f, r) && f@ == field && r.micros == micros
        } else if bound == 2 {
            e matches ParseErrorKind::NumericNotNonNegative(f, r) && f@ == field && r.micros == micros
        } else {
            false
        },
    }
}

/// Why a color value `s[start..end]` is refused.
pub open spec fn spec_color_refusal(s: Seq<char>, start: int, end: int, e: ParseErrorKind) -> bool {
    spec_color(s, spec_trim(s, start, end).0, spec_trim(s, start, end).1) matches Err(ce) && e == ParseErrorKind::InvalidColor(ce)
}

/// Why the value `s[start..end]` of parameter `kind` is refused.
pub open spec fn spec_value_refusal(kind: ParamKind, s: Seq<char>, start: int, end: int, e: ParseErrorKind) -> bool {
    match kind {
        ParamKind::FontSize => spec_numeric_refusal("fontsize"@, s, start, end, 1, e),
        ParamKind::LineHeight => spec_numeric_refusal("lineheight"@, s, start, end, 1, e),
        ParamKind::CapWidth => spec_numeric_refusal("capwidth"@, s, start, end, 0, e),
        ParamKind::NamePad => spec_numeric_refusal("namepad"@, s, start, end, 0, e),
        ParamKind::Scale => spec_numeric_refusal("scale"@, s, start, end, 1, e),
        ParamKind::PageMargin => spec_numeric_refusal("page_margin"@, s, start, end, 0, e),
        ParamKind::Step => spec_numeric_refusal("step"@, s, start, end, 1, e),
        ParamKind::Slant => spec_numeric_refusal("slant"@, s, start, end, 2, e),
        ParamKind::SignalGap => spec_numeric_refusal("h_space"@, s, start, end, 2, e),
        ParamKind::SignalWidth => spec_numeric_refusal("signal_width"@, s, start, end, 0, e),
        ParamKind::GuideWidth => spec_numeric_refusal("guide_width"@, s, start, end, 0, e),
        ParamKind::ClockmarkPosition => spec_numeric_refusal("clockmark_position"@, s, start, end, 0, e),
        ParamKind::ClockmarkHeight => spec_numeric_refusal("clockmark_height"@, s, start, end, 0, e),
        ParamKind::ClockmarkWidth => spec_numeric_refusal("clockmark_width"@, s, start, end, 0, e),
        ParamKind::OverlineGap => spec_numeric_refusal("overline_gap"@, s, start, end, 1, e),
        ParamKind::OverlineThickness => spec_numeric_refusal("overline_thickness"@, s, start, end, 1, e),
        ParamKind::SignalColor | ParamKind::GuideColor | ParamKind::Bg | ParamKind::BgColor0 | ParamKind::BgColor1
        | ParamKind::DontcareColor | ParamKind::ClockmarkColor | ParamKind::RulerColor => spec_color_refusal(s, start, end, e),
        ParamKind::TitleAlign => e matches ParseErrorKind::InvalidTitleAlign(t) && t@ == spec_trimmed(s, start, end),
        ParamKind::Ruler => e matches ParseErrorKind::InvalidRulerValue(t) && t@ == spec_trimmed(s, start, end),
        ParamKind::Font => spec_text_error(spec_trimmed(s, start, end)) matches Some(te) && e == ParseErrorKind::InvalidText(te),
        ParamKind::HighlightStyle => spec_svg_pairs(s.subrange(start, end), 0) matches Err(f) && spec_svg_fault_kind(f, e),
    }
}

/// `x + y`, saturating at `u32::MAX`.
pub open spec fn spec_sat_add(x: u32, y: u32) -> u32 {
    if x + y <= u32::MAX { (x + y) as u32 } else { u32::MAX }
}

/// Whether the refusal `e` of the value `s[va..vb]`, which starts at
/// `loc`, points where it should: on that line, at the offending character
/// of a colour or text value, else over the whole trimmed value.
pub open spec fn spec_value_error_at(e: ParseError, s: Seq<char>, va: int, vb: int, loc: SourceLocation) -> bool {
    let t = spec_trim(s, va, vb);
    let caret = spec_value_caret(e.kind, spec_clamp_u32(t.1 - t.0));
    &&& e.location == SourceLocation {
        line: loc.line,
        column: spec_sat_add(spec_sat_add(loc.column, spec_clamp_u32(t.0 - va)), caret.0),
    }
    &&& e.length == caret.1
}

/// A finite value, in millionths.
pub open spec fn spec_num(s: Seq<char>, start: int, end: int) -> Option<i64> {
    match spec_numeric(s, start, end) {
        Ok(m) => Some(m),
        Err(_) => None,
    }
}

/// A finite value greater than zero.
pub open spec fn spec_positive(s: Seq<char>, start: int, end: int) -> Option<i64> {
    match spec_numeric(s, start, end) {
        Ok(m) => if m > 0 { Some(m) } else { None },
        Err(_) => None,
    }
}

/// A finite value of zero or more.
pub open spec fn spec_non_negative(s: Seq<char>, start: int, end: int) -> Option<i64> {
    match spec_numeric(s, start, end) {
        Ok(m) => if m >= 0 { Some(m) } else { None },
        Err(_) => None,
    }
}

/// A color, surrounding whitespace ignored.
pub open spec fn spec_color_value(s: Seq<char>, start: int, end: int) -> Option<Color> {
    match spec_color(s, spec_trim(s, start, end).0, spec_trim(s, start, end).1) {
        Ok(c) => Some(c),
        Err(_) => None,
    }
}

/// The trimmed value as characters.
pub open spec fn spec_trimmed(s: Seq<char>, start: int, end: int) -> Seq<char> {
    s.subrange(spec_trim(s, start, end).0, spec_trim(s, start, end).1)
}

/// The directive that `kind` with the value `s[start..end]` gives, or
/// `None` when the value is not valid for it. Font and highlight-style
/// values are described by `parse_value` itself.
pub open spec fn spec_directive(kind: ParamKind, s: Seq<char>, start: int, end: int) -> Option<Directive> {
    match kind {
        ParamKind::FontSize => match spec_positive(s, start, end) {
            Some(m) => Some(Directive::FontSize(Px { micros: m })),
            None => None,
        },
        ParamKind::LineHeight => match spec_positive(s, start, end) {
            Some(m) => Some(Directive::LineHeight(Ratio { micros: m })),
            None => None,
        },
        ParamKind::CapWidth => match spec_num(s, start, end) {
            Some(m) => Some(Directive::CapWidth(if m <= 0 { None } else { Some(Px { micros: m }) })),
            None => None,
        },
        ParamKind::NamePad => match spec_num(s, start, end) {
            Some(m) => Some(Directive::NamePad(Px { micros: m })),
            None => None,
        },
        ParamKind::Scale => match spec_positive(s, start, end) {
            Some(m) => Some(Directive::Scale(Ratio { micros: m })),
            None => None,
        },
        ParamKind::PageMargin => match spec_num(s, start, end) {
            Some(m) => Some(Directive::PageMargin(Px { micros: m })),
            None => None,
        },
        ParamKind::Step => match spec_positive(s, start, end) {
            Some(m) => Some(Directive::Step(Px { micros: m })),
            None => None,
        },
        ParamKind::Slant => match spec_non_negative(s, start, end) {
            Some(m) => Some(Directive::Slant(Px { micros: m })),
            None => None,
        },
        ParamKind::SignalGap => match spec_non_negative(s, start, end) {
            Some(m) => Some(Directive::SignalGap(Px { micros: m })),
            None => None,
        },
        ParamKind::Font => None,
        ParamKind::SignalColor => match spec_color_value(s, start, end) {
            Some(c) => Some(Directive::SignalColor(c)),
            None => None,
        },
        ParamKind::SignalWidth => match spec_num(s, start, end) {
            Some(m) => Some(Directive::SignalWidth(Px { micros: m })),
            None => None,
        },
        ParamKind::GuideColor => match spec_color_value(s, start, end) {
            Some(c) => Some(Directive::GuideColor(c)),
            None => None,
        },
        ParamKind::GuideWidth => match spec_num(s, start, end) {
            Some(m) => Some(Directive::GuideWidth(Px { micros: m })),
            None => None,
        },
        ParamKind::Bg => if spec_eq_ignore_case(spec_trimmed(s, start, end), seq!['n', 'o', 'n', 'e']) {
            Some(Directive::Bg(None))
        } else {
            match spec_color_value(s, start, end) {
                Some(c) => Some(Directive::Bg(Some(c))),
                None => None,
            }
        },
        ParamKind::BgColor0 => match spec_color_value(s, start, end) {
            Some(c) => Some(Directive::BgColor0(c)),
            None => None,
        },
        ParamKind::BgColor1 => match spec_color_value(s, start, end) {
            Some(c) => Some(Directive::BgColor1(c)),
            None => None,
        },
        ParamKind::HighlightStyle => None,
        ParamKind::DontcareColor => match spec_color_value(s, start, end) {
            Some(c) => Some(Directive::DontcareColor(c)),
            None => None,
        },
        ParamKind::TitleAlign => match spec_align_word(spec_trimmed(s, start, end)) {
            Some(a) => Some(Directive::TitleAlign(a)),
            None => None,
        },
        ParamKind::ClockmarkPosition => match spec_num(s, start, end) {
            Some(m) => Some(Directive::ClockmarkPosition(Ratio { micros: m })),
            None => None,
        },
        ParamKind::ClockmarkHeight => match spec_num(s, start, end) {
            Some(m) => Some(Directive::ClockmarkHeight(Px { micros: m })),
            None => None,
        },
        ParamKind::ClockmarkWidth => match spec_num(s, start, end) {
            Some(m) => Some(Directive::ClockmarkWidth(Px { micros: m })),
            None => None,
        },
        ParamKind::ClockmarkColor => match spec_color_value(s, start, end) {
            Some(c) => Some(Directive::ClockmarkColor(c)),
            None => None,
        },
        ParamKind::OverlineGap => match spec_positive(s, start, end) {
            Some(m) => Some(Directive::OverlineGap(Px { micros: m })),
            None => None,
        },
        ParamKind::OverlineThickness => match spec_positive(s, start, end) {
            Some(m) => Some(Directive::OverlineThickness(Px { micros: m })),
            None => None,
        },
        ParamKind::Ruler => if spec_eq_ignore_case(spec_trimmed(s, start, end), seq!['o', 'n']) {
            Some(Directive::Ruler(true))
        } else if spec_eq_ignore_case(spec_trimmed(s, start, end), seq!['o', 'f', 'f']) {
            Some(Directive::Ruler(false))
        } else {
            None
        },
        ParamKind::RulerColor => match spec_color_value(s, start, end) {
            Some(c) => Some(Directive::RulerColor(c)),
            None => None,
        },
    }
}

/// Reads the value of directive `kind` from `chars[start..end]`.
pub fn parse_value(kind: ParamKind, chars: &[char], start: usize, end: usize) -> (r: Result<Directive, ParseErrorKind>)
    requires
        start <= end <= chars@.len(),
    ensures
        kind != ParamKind::Font && kind != ParamKind::HighlightStyle ==> match spec_directive(kind, chars@, start as int, end as int) {
            Some(d) => r == Ok::<Directive, ParseErrorKind>(d),
            None => r is Err,
        },
        kind == ParamKind::Font ==> match r {
            Ok(d) => d matches Directive::Font(f) && f@ == spec_trimmed(chars@, start as int, end as int)
                && spec_text_error(spec_trimmed(chars@, start as int, end as int)) is None,
            Err(e) => spec_text_error(spec_trimmed(chars@, start as int, end as int)) matches Some(te)
                && e == ParseErrorKind::InvalidText(te),
        },
        r matches Err(e) ==> spec_value_refusal(kind, chars@, start as int, end as int, e),
        kind == ParamKind::HighlightStyle ==> match spec_svg_pairs(chars@.subrange(start as int, end as int), 0) {
            Ok(ps) => r matches Ok(d) && (d matches Directive::HighlightStyle(l) && spec_pair_models(l.pairs@) == ps),
            Err(f) => r matches Err(e) && spec_svg_fault_kind(f, e),
        },
{
    match kind {
        ParamKind::FontSize => Ok(Directive::FontSize(Px { micros: positive_value("fontsize", chars, start, end)? })),
        ParamKind::LineHeight => Ok(Directive::LineHeight(Ratio { micros: positive_value("lineheight", chars, start, end)? })),
        ParamKind::CapWidth => {
            let m = finite_value("capwidth", chars, start, end)?;
            Ok(Directive::CapWidth(if m <= 0 { None } else { Some(Px { micros: m }) }))
        },
        ParamKind::NamePad => Ok(Directive::NamePad(Px { micros: finite_value("namepad", chars, start, end)? })),
        ParamKind::Scale => Ok(Directive::Scale(Ratio { micros: positive_value("scale", chars, start, end)? })),
        ParamKind::PageMargin => Ok(Directive::PageMargin(Px { micros: finite_value("page_margin", chars, start, end)? })),
        ParamKind::Step => Ok(Directive::Step(Px { micros: positive_value("step", chars, start, end)? })),
        ParamKind::Slant => Ok(Directive::Slant(Px { micros: non_negative_value("slant", chars, start, end)? })),
        ParamKind::SignalGap => Ok(Directive::SignalGap(Px { micros: non_negative_value("h_space", chars, start, end)? })),
        ParamKind::Font => {
            let (a, b) = trim_span(chars, start, end);
            match FontFamily::parse(chars, a, b) {
                Ok(f) => Ok(Directive::Font(f)),
                Err(e) => Err(ParseErrorKind::InvalidText(e)),
            }
        },
        ParamKind::SignalColor => Ok(Directive::SignalColor(color_value(chars, start, end)?)),
        ParamKind::SignalWidth => Ok(Directive::SignalWidth(Px { micros: finite_value("signal_width", chars, start, end)? })),
        ParamKind::GuideColor => Ok(Directive::GuideColor(color_value(chars, start, end)?)),
        ParamKind::GuideWidth => Ok(Directive::GuideWidth(Px { micros: finite_value("guide_width", chars, start, end)? })),
        ParamKind::Bg => {
            let (a, b) = trim_span(chars, start, end);
            if span_eq_ignore_case(chars, a, b, &['n', 'o', 'n', 'e']) {
                Ok(Directive::Bg(None))
            } else {
                Ok(Directive::Bg(Some(color_value(chars, start, end)?)))
            }
        },
        ParamKind::BgColor0 => Ok(Directive::BgColor0(color_value(chars, start, end)?)),
        ParamKind::BgColor1 => Ok(Directive::BgColor1(color_value(chars, start, end)?)),
        ParamKind::HighlightStyle => {
            let v = sub_vec(chars, start, end);
            match SvgAttrList::parse(&v) {
                Ok(list) => Ok(Directive::HighlightStyle(list)),
                Err(e) => Err(e),
            }
        },
        ParamKind::DontcareColor => Ok(Directive::DontcareColor(color_value(chars, start, end)?)),
        ParamKind::TitleAlign => {
            let (a, b) = trim_span(chars, start, end);
            match HorizontalAlign::from_keyword(chars, a, b) {
                Some(align) => Ok(Directive::TitleAlign(align)),
                None => Err(ParseErrorKind::InvalidTitleAlign(string_of(chars, a, b))),
            }
        },
        ParamKind::ClockmarkPosition => Ok(Directive::ClockmarkPosition(Ratio { micros: finite_value("clockmark_position", chars, start, end)? })),
        ParamKind::ClockmarkHeight => Ok(Directive::ClockmarkHeight(Px { micros: finite_value("clockmark_height", chars, start, end)? })),
        ParamKind::ClockmarkWidth => Ok(Directive::ClockmarkWidth(Px { micros: finite_value("clockmark_width", chars, start, end)? })),
        ParamKind::ClockmarkColor => Ok(Directive::ClockmarkColor(color_value(chars, start, end)?)),
        ParamKind::OverlineGap => Ok(Directive::OverlineGap(Px { micros: positive_value("overline_gap", chars, start, end)? })),
        ParamKind::OverlineThickness => Ok(Directive::OverlineThickness(Px { micros: positive_value("overline_thickness", chars, start, end)? })),
        ParamKind::Ruler => {
            let (a, b) = trim_span(chars, start, end);
            if span_eq_ignore_case(chars, a, b, &['o', 'n']) {
                Ok(Directive::Ruler(true))
            } else if span_eq_ignore_case(chars, a, b, &['o', 'f', 'f']) {
                Ok(Directive::Ruler(false))
            } else {
                Err(ParseErrorKind::InvalidRulerValue(string_of(chars, a, b)))
            }
        },
        ParamKind::RulerColor => Ok(Directive::RulerColor(color_value(chars, start, end)?)),
    }
}

/// Where an error of kind `kind` about a value of `trimmed_length`
/// characters points, as an offset into the value and a length: at the
/// offending character of a color or text value when it names one, else at
/// the whole trimmed value.
pub open spec fn spec_value_caret(kind: ParseErrorKind, trimmed_length: u32) -> (u32, u32) {
    match kind {
        ParseErrorKind::InvalidColor(ColorError::InvalidHexDigit { char_offset }) => (char_offset, 1),
        ParseErrorKind::InvalidText(TextError::ForbiddenControlChar { char_offset }) => (char_offset, 1),
        _ => (0, trimmed_length),
    }
}

/// Where an error about a value directive points: at the offending
/// character of a color or text value when it names one, else at the
/// whole trimmed value.
fn value_caret(kind: &ParseErrorKind, trimmed_length: u32) -> (r: (u32, u32))
    ensures
        r == spec_value_caret(*kind, trimmed_length),
{
    let offset = match kind {
        ParseErrorKind::InvalidColor(e) => e.char_offset(),
        ParseErrorKind::InvalidText(e) => e.char_offset(),
        _ => None,
    };
    match offset {
        Some(o) => (o, 1),
        None => (0, trimmed_length),
    }
}

/// What `parse_directive` gives for the name `s[ns..ne]` and the value
/// `s[vs..ve]`: an unknown name is refused at `nl`; a known one is read by
/// its kind alone, a refused value pointed at inside `vl`'s line.
pub open spec fn spec_directive_outcome(
    s: Seq<char>,
    ns: int,
    ne: int,
    vs: int,
    ve: int,
    value_location: SourceLocation,
    name_location: SourceLocation,
    r: Result<Directive, ParseError>,
) -> bool {
    &&& r matches Err(e) ==> {
        ||| spec_param_kind(spec_normalise(s.subrange(ns, ne))) is None
            && (e.kind matches ParseErrorKind::UnknownParameter(n) && n@ == s.subrange(ns, ne))
            && e.location == name_location && e.length == spec_clamp_u32(ne - ns)
        ||| spec_param_kind(spec_normalise(s.subrange(ns, ne))) is Some
            && e.location.line == value_location.line
    }
    &&& r is Ok ==> spec_param_kind(spec_normalise(s.subrange(ns, ne))) is Some
    &&& spec_param_kind(spec_normalise(s.subrange(ns, ne))) matches Some(kind) ==> {
        &&& r matches Err(e) ==> spec_value_refusal(kind, s, vs, ve, e.kind)
            && spec_value_error_at(e, s, vs, ve, value_location)
        &&& kind != ParamKind::Font && kind != ParamKind::HighlightStyle ==> match spec_directive(kind, s, vs, ve) {
            Some(d) => r == Ok::<Directive, ParseError>(d),
            None => r is Err,
        }
        &&& kind == ParamKind::Font ==> (r matches Ok(d) ==> d matches Directive::Font(f)
            && f@ == spec_trimmed(s, vs, ve))
        &&& kind == ParamKind::Font ==> (r is Ok <==> spec_text_error(spec_trimmed(s, vs, ve)) is None)
        &&& kind == ParamKind::HighlightStyle ==> match spec_svg_pairs(s.subrange(vs, ve), 0) {
            Ok(ps) => r matches Ok(d) && (d matches Directive::HighlightStyle(l) && spec_pair_models(l.pairs@) == ps),
            Err(_) => r is Err,
        }
    }
}

/// Names that normalise alike name the same directive: for a known name,
/// a spelling that normalises to the same key (`fontsize`, `FontSize`,
/// `font-size`, `FONT_SIZE`) admits exactly the same results.
pub proof fn lemma_directive_aliases_agree(
    s: Seq<char>,
    ns1: int,
    ne1: int,
    ns2: int,
    ne2: int,
    vs: int,
    ve: int,
    value_location: SourceLocation,
    name_location: SourceLocation,
    r: Result<Directive, ParseError>,
)
    requires
        spec_normalise(s.subrange(ns1, ne1)) == spec_normalise(s.subrange(ns2, ne2)),
        spec_param_kind(spec_normalise(s.subrange(ns1, ne1))) is Some,
    ensures
        spec_directive_outcome(s, ns1, ne1, vs, ve, value_location, name_location, r)
            == spec_directive_outcome(s, ns2, ne2, vs, ve, value_location, name_location, r),
{
}

/// Parses the value directive `@name value`, with the name at
/// `chars[name_start..name_end]` and the value at `chars[value_start..
/// value_end]`. An unknown name is reported at `name_location` (the `@`);
/// a bad value at the value inside `value_location`'s line.
pub fn parse_directive(
    chars: &[char],
    name_start: usize,
    name_end: usize,
    value_start: usize,
    value_end: usize,
    value_location: SourceLocation,
    name_location: SourceLocation,
) -> (r: Result<Directive, ParseError>)
    requires
        name_start <= name_end <= chars@.len(),
        value_start <= value_end <= chars@.len(),
        spec_pos_ok(value_location),
        spec_pos_ok(name_location),
    ensures
        r matches Err(e) ==> spec_pos_ok(e.location),
        spec_directive_outcome(chars@, name_start as int, name_end as int, value_start as int, value_end as int,
            value_location, name_location, r),
{
    let name = normalise(chars, name_start, name_end);
    let kind = match param_kind(&name) {
        Some(k) => k,
        None => {
            return Err(ParseError::with_length(
                name_location,
                clamp_u32(name_end - name_start),
                ParseErrorKind::UnknownParameter(string_of(chars, name_start, name_end)),
            ));
        },
    };
    let (a, b) = trim_span(chars, value_start, value_end);
    match parse_value(kind, chars, value_start, value_end) {
        Ok(d) => Ok(d),
        Err(k) => {
            let (offset, length) = value_caret(&k, clamp_u32(b - a));
            let column = value_location.column.saturating_add(clamp_u32(a - value_start)).saturating_add(offset);
            Err(ParseError::with_length(SourceLocation::new(value_location.line, column), length, k))
        },
    }
}

} // verus!
