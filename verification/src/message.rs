//! Human-readable descriptions of parse errors.

use vstd::prelude::*;
use crate::chars::{push_char, push_decimal, push_str, spec_decimal_digits};
use crate::errors::{AnchorNameError, ColorError, NameError, ParseError, ParseErrorKind, TextError};

verus! {

/// `places` decimal digits of `f`, zero-padded, most significant first.
pub open spec fn spec_fraction_digits(f: nat, places: nat) -> Seq<char>
    decreases places,
{
    if places == 0 {
        Seq::empty()
    } else {
        spec_fraction_digits(f / 10, (places - 1) as nat).push((('0' as u32) + (f % 10)) as char)
    }
}

/// `f` over `places` digits with its trailing zero digits dropped.
pub open spec fn spec_trim_fraction(f: nat, places: nat) -> (nat, nat)
    decreases places,
{
    if places > 0 && f % 10 == 0 {
        spec_trim_fraction(f / 10, (places - 1) as nat)
    } else {
        (f, places)
    }
}

/// A value in millionths written in decimal: `5`, `-2.5`, `0.000001`.
pub open spec fn spec_fixed_text(m: int) -> Seq<char> {
    let a: nat = if m < 0 { (-m) as nat } else { m as nat };
    let sign: Seq<char> = if m < 0 { seq!['-'] } else { Seq::empty() };
    let whole = spec_decimal_digits(a / 1_000_000);
    let frac: nat = a % 1_000_000;
    if frac == 0 {
        sign + whole
    } else {
        let (g, p) = spec_trim_fraction(frac, 6);
        sign + whole + seq!['.'] + spec_fraction_digits(g, p)
    }
}

fn fraction_digit(d: u64) -> (c: char)
    requires
        d < 10,
    ensures
        c == (('0' as u32) + d) as char,
{
    if d == 0 { '0' } else if d == 1 { '1' } else if d == 2 { '2' } else if d == 3 { '3' } else if d == 4 { '4' } else if d == 5 { '5' } else if d == 6 { '6' } else if d == 7 { '7' } else if d == 8 { '8' } else { '9' }
}

fn push_fraction_digits(s: &mut String, f: u64, places: u64)
    ensures
        final(s)@ == old(s)@ + spec_fraction_digits(f as nat, places as nat),
    decreases places,
{
    if places > 0 {
        push_fraction_digits(s, f / 10, places - 1);
        push_char(s, fraction_digit(f % 10));
    }
}

/// Appends a value in millionths in decimal.
pub fn push_fixed(s: &mut String, m: i64)
    ensures
        final(s)@ == old(s)@ + spec_fixed_text(m as int),
{
    let ghost start = s@;
    let wide = m as i128;
    let a: u64 = if wide < 0 { (0 - wide) as u64 } else { wide as u64 };
    if m < 0 {
        push_char(s, '-');
    }
    push_decimal(s, a / 1_000_000);
    let frac = a % 1_000_000;
    if frac != 0 {
        let mut g = frac;
        let mut p: u64 = 6;
        while p > 0 && g % 10 == 0
            invariant
                p <= 6,
                spec_trim_fraction(frac as nat, 6) == spec_trim_fraction(g as nat, p as nat),
            decreases p,
        {
            g = g / 10;
            p = p - 1;
        }
        push_char(s, '.');
        push_fraction_digits(s, g, p);
    }
    assert(s@ =~= start + spec_fixed_text(m as int));
}

pub open spec fn spec_color_error_text(e: ColorError) -> Seq<char> {
    match e {
        ColorError::Empty => "no color given"@,
        ColorError::InvalidHexLength => "`#` must be followed by 3, 4, 6 or 8 hex digits"@,
        ColorError::InvalidHexDigit { char_offset } => "not a hex digit at offset "@ + spec_decimal_digits(char_offset as nat),
        ColorError::UnknownName => "unknown color name"@,
    }
}

fn push_color_error_text(s: &mut String, e: ColorError)
    ensures
        final(s)@ == old(s)@ + spec_color_error_text(e),
{
    let ghost start = s@;
    match e {
        ColorError::Empty => push_str(s, "no color given"),
        ColorError::InvalidHexLength => push_str(s, "`#` must be followed by 3, 4, 6 or 8 hex digits"),
        ColorError::InvalidHexDigit { char_offset } => {
            push_str(s, "not a hex digit at offset ");
            push_decimal(s, char_offset as u64);
        },
        ColorError::UnknownName => push_str(s, "unknown color name"),
    }
    assert(s@ =~= start + spec_color_error_text(e));
}

pub open spec fn spec_text_error_text(e: TextError) -> Seq<char> {
    match e {
        TextError::ForbiddenControlChar { char_offset } => "control character at offset "@ + spec_decimal_digits(char_offset as nat),
    }
}

fn push_text_error_text(s: &mut String, e: TextError)
    ensures
        final(s)@ == old(s)@ + spec_text_error_text(e),
{
    let ghost start = s@;
    match e {
        TextError::ForbiddenControlChar { char_offset } => {
            push_str(s, "control character at offset ");
            push_decimal(s, char_offset as u64);
        },
    }
    assert(s@ =~= start + spec_text_error_text(e));
}

pub open spec fn spec_name_error_text(e: NameError) -> Seq<char> {
    match e {
        NameError::Empty => "empty name"@,
        NameError::ForbiddenControlChar { char_offset } => "control character at offset "@ + spec_decimal_digits(char_offset as nat),
    }
}

fn push_name_error_text(s: &mut String, e: NameError)
    ensures
        final(s)@ == old(s)@ + spec_name_error_text(e),
{
    let ghost start = s@;
    match e {
        NameError::Empty => push_str(s, "empty name"),
        NameError::ForbiddenControlChar { char_offset } => {
            push_str(s, "control character at offset ");
            push_decimal(s, char_offset as u64);
        },
    }
    assert(s@ =~= start + spec_name_error_text(e));
}

pub open spec fn spec_anchor_name_error_text(e: AnchorNameError) -> Seq<char> {
    match e {
        AnchorNameError::Empty => "empty name"@,
        AnchorNameError::InvalidChar { char_offset } => "character not allowed at offset "@ + spec_decimal_digits(char_offset as nat),
    }
}

fn push_anchor_name_error_text(s: &mut String, e: AnchorNameError)
    ensures
        final(s)@ == old(s)@ + spec_anchor_name_error_text(e),
{
    let ghost start = s@;
    match e {
        AnchorNameError::Empty => push_str(s, "empty name"),
        AnchorNameError::InvalidChar { char_offset } => {
            push_str(s, "character not allowed at offset ");
            push_decimal(s, char_offset as u64);
        },
    }
    assert(s@ =~= start + spec_anchor_name_error_text(e));
}

pub open spec fn spec_kind_text(k: ParseErrorKind) -> Seq<char> {
    match k {
        ParseErrorKind::InvalidLevelChar(c) => "invalid character '"@ + seq![c] + "' in waveform"@,
        ParseErrorKind::DontCareWithoutAnchor => "`?` has no preceding level to follow"@,
        ParseErrorKind::MissingInitialLevel => "text before the first level of the waveform"@,
        ParseErrorKind::UnclosedHighlight => "highlight `[` is not closed"@,
        ParseErrorKind::UnopenedHighlightEnd => "`]` without a matching `[`"@,
        ParseErrorKind::UnclosedQuote => "quote is not closed"@,
        ParseErrorKind::AnchorExpectedNameOrDigit => "expected `{name}` or a number after `@`"@,
        ParseErrorKind::AnchorBraceNotClosed => "anchor name is missing its closing `}`"@,
        ParseErrorKind::AnchorIndexNotParseable(t) => "anchor number out of range: "@ + t@,
        ParseErrorKind::InvalidAnchorName(e) => "invalid anchor name: "@ + spec_anchor_name_error_text(e),
        ParseErrorKind::DuplicateAnchor => "duplicate anchor"@,
        ParseErrorKind::UndefinedAnchor(t) => "undefined anchor "@ + t@,
        ParseErrorKind::InvalidArrowSyntax => "invalid arrow: expected `@-> (from, to, ...)`"@,
        ParseErrorKind::UnknownArrowAttribute(t) => "unknown arrow attribute: "@ + t@,
        ParseErrorKind::DuplicateArrowAttribute(t) => "duplicate arrow attribute: "@ + t@,
        ParseErrorKind::UnknownParameter(t) => "unknown parameter @"@ + t@,
        ParseErrorKind::InvalidColor(e) => "invalid color: "@ + spec_color_error_text(e),
        ParseErrorKind::InvalidText(e) => "invalid text: "@ + spec_text_error_text(e),
        ParseErrorKind::InvalidName(e) => "invalid signal name: "@ + spec_name_error_text(e),
        ParseErrorKind::InvalidLength(e) => "value is not finite"@,
        ParseErrorKind::NumericNotParseable(f, t) => "@"@ + f@ + ": not a number: "@ + t@,
        ParseErrorKind::NumericOverflow(f, t, limit) => "@"@ + f@ + ": value "@ + t@ + " exceeds "@ + spec_decimal_digits(limit as nat),
        ParseErrorKind::NumericNotPositive(f, v) => "@"@ + f@ + ": value must be positive, got "@ + spec_fixed_text(v.micros as int),
        ParseErrorKind::NumericNotNonNegative(f, v) => "@"@ + f@ + ": value must not be negative, got "@ + spec_fixed_text(v.micros as int),
        ParseErrorKind::InvalidTitleAlign(t) => "invalid title alignment: "@ + t@,
        ParseErrorKind::InvalidRulerValue(t) => "@ruler expects on or off, got: "@ + t@,
        ParseErrorKind::InvalidSkipSyntax => "invalid @skip: expected `@skip(amount)`"@,
        ParseErrorKind::InvalidSkipAmount(t) => "invalid @skip amount: "@ + t@,
        ParseErrorKind::TitleRequiresArgument => "@title requires an argument"@,
        ParseErrorKind::ClockInvalidAttribute(t) => "invalid @clock attribute: "@ + t@,
        ParseErrorKind::UnknownSignalAttribute(t) => "unknown @signal attribute: "@ + t@,
        ParseErrorKind::InvalidOverlineSyntax(t) => "@overline takes no argument, got: "@ + t@,
        ParseErrorKind::InvalidOverlayCoordinate(t) => "invalid overlay coordinate: "@ + t@,
        ParseErrorKind::InvalidStepSlant(step, slant) => "@step ("@ + spec_fixed_text(step.micros as int) + ") must be greater than @slant ("@ + spec_fixed_text(slant.micros as int) + ")"@,
        ParseErrorKind::HighlightStyleEmptyAttrName => "@highlight_style: empty attribute name"@,
        ParseErrorKind::HighlightStyleMissingEquals(t) => "@highlight_style: missing `=` after "@ + t@,
        ParseErrorKind::HighlightStyleUnterminatedValue => "@highlight_style: quoted value is not closed"@,
    }
}

fn push_kind_text(s: &mut String, k: &ParseErrorKind)
    ensures
        final(s)@ == old(s)@ + spec_kind_text(*k),
{
    let ghost start = s@;
    match k {
        ParseErrorKind::InvalidLevelChar(c) => {
            push_str(s, "invalid character '");
            push_char(s, *c);
            push_str(s, "' in waveform");
            assert(s@ =~= start + spec_kind_text(*k));
        },
        ParseErrorKind::DontCareWithoutAnchor => {
            push_str(s, "`?` has no preceding level to follow");
            assert(s@ =~= start + spec_kind_text(*k));
        },
        ParseErrorKind::MissingInitialLevel => {
            push_str(s, "text before the first level of the waveform");
            assert(s@ =~= start + spec_kind_text(*k));
        },
        ParseErrorKind::UnclosedHighlight => {
            push_str(s, "highlight `[` is not closed");
            assert(s@ =~= start + spec_kind_text(*k));
        },
        ParseErrorKind::UnopenedHighlightEnd => {
            push_str(s, "`]` without a matching `[`");
            assert(s@ =~= start + spec_kind_text(*k));
        },
        ParseErrorKind::UnclosedQuote => {
            push_str(s, "quote is not closed");
            assert(s@ =~= start + spec_kind_text(*k));
        },
        ParseErrorKind::AnchorExpectedNameOrDigit => {
            push_str(s, "expected `{name}` or a number after `@`");
            assert(s@ =~= start + spec_kind_text(*k));
        },
        ParseErrorKind::AnchorBraceNotClosed => {
            push_str(s, "anchor name is missing its closing `}`");
            assert(s@ =~= start + spec_kind_text(*k));
        },
        ParseErrorKind::AnchorIndexNotParseable(t) => {
            push_str(s, "anchor number out of range: ");
            push_str(s, t.as_str());
            assert(s@ =~= start + spec_kind_text(*k));
        },
        ParseErrorKind::InvalidAnchorName(e) => {
            push_str(s, "invalid anchor name: ");
            push_anchor_name_error_text(s, *e);
            assert(s@ =~= start + spec_kind_text(*k));
        },
        ParseErrorKind::DuplicateAnchor => {
            push_str(s, "duplicate anchor");
            assert(s@ =~= start + spec_kind_text(*k));
        },
        ParseErrorKind::UndefinedAnchor(t) => {
            push_str(s, "undefined anchor ");
            push_str(s, t.as_str());
            assert(s@ =~= start + spec_kind_text(*k));
        },
        ParseErrorKind::InvalidArrowSyntax => {
            push_str(s, "invalid arrow: expected `@-> (from, to, ...)`");
            assert(s@ =~= start + spec_kind_text(*k));
        },
        ParseErrorKind::UnknownArrowAttribute(t) => {
            push_str(s, "unknown arrow attribute: ");
            push_str(s, t.as_str());
            assert(s@ =~= start + spec_kind_text(*k));
        },
        ParseErrorKind::DuplicateArrowAttribute(t) => {
            push_str(s, "duplicate arrow attribute: ");
            push_str(s, t.as_str());
            assert(s@ =~= start + spec_kind_text(*k));
        },
        ParseErrorKind::UnknownParameter(t) => {
            push_str(s, "unknown parameter @");
            push_str(s, t.as_str());
            assert(s@ =~= start + spec_kind_text(*k));
        },
        ParseErrorKind::InvalidColor(e) => {
            push_str(s, "invalid color: ");
            push_color_error_text(s, *e);
            assert(s@ =~= start + spec_kind_text(*k));
        },
        ParseErrorKind::InvalidText(e) => {
            push_str(s, "invalid text: ");
            push_text_error_text(s, *e);
            assert(s@ =~= start + spec_kind_text(*k));
        },
        ParseErrorKind::InvalidName(e) => {
            push_str(s, "invalid signal name: ");
            push_name_error_text(s, *e);
            assert(s@ =~= start + spec_kind_text(*k));
        },
        ParseErrorKind::InvalidLength(e) => {
            push_str(s, "value is not finite");
            assert(s@ =~= start + spec_kind_text(*k));
        },
        ParseErrorKind::NumericNotParseable(f, t) => {
            push_str(s, "@");
            push_str(s, f.as_str());
            push_str(s, ": not a number: ");
            push_str(s, t.as_str());
            assert(s@ =~= start + spec_kind_text(*k));
        },
        ParseErrorKind::NumericOverflow(f, t, limit) => {
            push_str(s, "@");
            push_str(s, f.as_str());
            push_str(s, ": value ");
            push_str(s, t.as_str());
            push_str(s, " exceeds ");
            push_decimal(s, *limit as u64);
            assert(s@ =~= start + spec_kind_text(*k));
        },
        ParseErrorKind::NumericNotPositive(f, v) => {
            push_str(s, "@");
            push_str(s, f.as_str());
            push_str(s, ": value must be positive, got ");
            push_fixed(s, v.micros);
            assert(s@ =~= start + spec_kind_text(*k));
        },
        ParseErrorKind::NumericNotNonNegative(f, v) => {
            push_str(s, "@");
            push_str(s, f.as_str());
            push_str(s, ": value must not be negative, got ");
            push_fixed(s, v.micros);
            assert(s@ =~= start + spec_kind_text(*k));
        },
        ParseErrorKind::InvalidTitleAlign(t) => {
            push_str(s, "invalid title alignment: ");
            push_str(s, t.as_str());
            assert(s@ =~= start + spec_kind_text(*k));
        },
        ParseErrorKind::InvalidRulerValue(t) => {
            push_str(s, "@ruler expects on or off, got: ");
            push_str(s, t.as_str());
            assert(s@ =~= start + spec_kind_text(*k));
        },
        ParseErrorKind::InvalidSkipSyntax => {
            push_str(s, "invalid @skip: expected `@skip(amount)`");
            assert(s@ =~= start + spec_kind_text(*k));
        },
        ParseErrorKind::InvalidSkipAmount(t) => {
            push_str(s, "invalid @skip amount: ");
            push_str(s, t.as_str());
            assert(s@ =~= start + spec_kind_text(*k));
        },
        ParseErrorKind::TitleRequiresArgument => {
            push_str(s, "@title requires an argument");
            assert(s@ =~= start + spec_kind_text(*k));
        },
        ParseErrorKind::ClockInvalidAttribute(t) => {
            push_str(s, "invalid @clock attribute: ");
            push_str(s, t.as_str());
            assert(s@ =~= start + spec_kind_text(*k));
        },
        ParseErrorKind::UnknownSignalAttribute(t) => {
            push_str(s, "unknown @signal attribute: ");
            push_str(s, t.as_str());
            assert(s@ =~= start + spec_kind_text(*k));
        },
        ParseErrorKind::InvalidOverlineSyntax(t) => {
            push_str(s, "@overline takes no argument, got: ");
            push_str(s, t.as_str());
            assert(s@ =~= start + spec_kind_text(*k));
        },
        ParseErrorKind::InvalidOverlayCoordinate(t) => {
            push_str(s, "invalid overlay coordinate: ");
            push_str(s, t.as_str());
            assert(s@ =~= start + spec_kind_text(*k));
        },
        ParseErrorKind::InvalidStepSlant(step, slant) => {
            push_str(s, "@step (");
            push_fixed(s, step.micros);
            push_str(s, ") must be greater than @slant (");
            push_fixed(s, slant.micros);
            push_str(s, ")");
            assert(s@ =~= start + spec_kind_text(*k));
        },
        ParseErrorKind::HighlightStyleEmptyAttrName => {
            push_str(s, "@highlight_style: empty attribute name");
            assert(s@ =~= start + spec_kind_text(*k));
        },
        ParseErrorKind::HighlightStyleMissingEquals(t) => {
            push_str(s, "@highlight_style: missing `=` after ");
            push_str(s, t.as_str());
            assert(s@ =~= start + spec_kind_text(*k));
        },
        ParseErrorKind::HighlightStyleUnterminatedValue => {
            push_str(s, "@highlight_style: quoted value is not closed");
            assert(s@ =~= start + spec_kind_text(*k));
        },
    }
}

/// `line:column: description`.
pub open spec fn spec_message(e: ParseError) -> Seq<char> {
    spec_decimal_digits(e.location.line as nat) + ":"@ + spec_decimal_digits(e.location.column as nat) + ": "@
        + spec_kind_text(e.kind)
}

impl ParseError {
    /// The error as text: `line:column: description`.
    pub fn message(&self) -> (s: String)
        ensures
            s@ == spec_message(*self),
    {
        let mut s = String::new();
        push_decimal(&mut s, self.location.line as u64);
        push_str(&mut s, ":");
        push_decimal(&mut s, self.location.column as u64);
        push_str(&mut s, ": ");
        push_kind_text(&mut s, &self.kind);
        assert(s@ =~= spec_message(*self));
        s
    }
}

} // verus!
