//! Parse errors with 1-based source locations.

use vstd::prelude::*;
use crate::units::{Px, Ratio};

verus! {

/// A 1-based line / character-column position in the TCML source.
#[derive(Debug, Clone, Copy, PartialEq, Eq, Structural)]
pub struct SourceLocation {
    pub line: u32,
    pub column: u32,
}

/// A real position: both the line and the column count from 1.
pub open spec fn spec_pos_ok(l: SourceLocation) -> bool {
    l.line >= 1 && l.column >= 1
}

/// `l` moved `offset` columns to the right, saturating at `u32::MAX`.
pub open spec fn spec_shifted(l: SourceLocation, offset: u32) -> SourceLocation {
    SourceLocation {
        line: l.line,
        column: if l.column + offset <= u32::MAX { (l.column + offset) as u32 } else { u32::MAX },
    }
}

/// A count converted to `u32`, saturating.
pub open spec fn spec_clamp_u32(n: int) -> u32 {
    if n <= u32::MAX { n as u32 } else { u32::MAX }
}

impl SourceLocation {
    pub fn new(line: u32, column: u32) -> (l: SourceLocation)
        ensures
            l.line == line,
            l.column == column,
    {
        SourceLocation { line, column }
    }

    pub fn line(&self) -> (n: u32)
        ensures
            n == self.line,
    {
        self.line
    }

    pub fn column(&self) -> (n: u32)
        ensures
            n == self.column,
    {
        self.column
    }

    /// The same line, `offset` columns further right (saturating).
    pub fn shifted(&self, offset: u32) -> (l: SourceLocation)
        ensures
            l == spec_shifted(*self, offset),
            spec_pos_ok(*self) ==> spec_pos_ok(l),
            l.line == self.line,
            l.column as int == if self.column + offset <= u32::MAX {
                self.column + offset
            } else {
                u32::MAX as int
            },
    {
        SourceLocation { line: self.line, column: self.column.saturating_add(offset) }
    }
}

/// Why a piece of user text was rejected.
#[derive(Debug, Clone, Copy, PartialEq, Eq, Structural)]
pub enum TextError {
    /// A control character (other than line feed) at this character offset.
    ForbiddenControlChar { char_offset: u32 },
}

impl TextError {
    pub fn char_offset(&self) -> (r: Option<u32>)
        ensures
            r == Some(self->char_offset),
    {
        match self {
            TextError::ForbiddenControlChar { char_offset } => Some(*char_offset),
        }
    }
}

/// Why a signal name was rejected.
#[derive(Debug, Clone, Copy, PartialEq, Eq, Structural)]
pub enum NameError {
    /// The name is empty.
    Empty,
    /// A control character (other than line feed) at this character offset.
    ForbiddenControlChar { char_offset: u32 },
}

impl NameError {
    pub fn char_offset(&self) -> (r: Option<u32>)
        ensures
            r == match self {
                NameError::Empty => None,
                NameError::ForbiddenControlChar { char_offset } => Some(*char_offset),
            },
    {
        match self {
            NameError::Empty => None,
            NameError::ForbiddenControlChar { char_offset } => Some(*char_offset),
        }
    }
}

/// Why a color literal was rejected.
#[derive(Debug, Clone, Copy, PartialEq, Eq, Structural)]
pub enum ColorError {
    /// Nothing was given.
    Empty,
    /// `#` followed by a number of digits other than 3, 4, 6 or 8.
    InvalidHexLength,
    /// A non-hexadecimal character at this offset of the literal.
    InvalidHexDigit { char_offset: u32 },
    /// Not a known color name.
    UnknownName,
}

impl ColorError {
    pub fn char_offset(&self) -> (r: Option<u32>)
        ensures
            r == match self {
                ColorError::InvalidHexDigit { char_offset } => Some(*char_offset),
                _ => None,
            },
    {
        match self {
            ColorError::InvalidHexDigit { char_offset } => Some(*char_offset),
            _ => None,
        }
    }
}

/// Why an anchor name was rejected.
#[derive(Debug, Clone, Copy, PartialEq, Eq, Structural)]
pub enum AnchorNameError {
    /// `@{}`.
    Empty,
    /// A character other than an ASCII letter, digit, `_` or `-`.
    InvalidChar { char_offset: u32 },
}

impl AnchorNameError {
    pub fn char_offset(&self) -> (r: Option<u32>)
        ensures
            r == match self {
                AnchorNameError::InvalidChar { char_offset } => Some(*char_offset),
                AnchorNameError::Empty => None,
            },
    {
        match self {
            AnchorNameError::InvalidChar { char_offset } => Some(*char_offset),
            AnchorNameError::Empty => None,
        }
    }
}

/// Why a length value was rejected.
#[derive(Debug, Clone, Copy, PartialEq, Eq, Structural)]
pub enum LengthError {
    /// `inf`, `nan`, or a literal too large to be finite.
    NotFinite,
}

/// Every way TCML input can be rejected.
#[derive(Debug, Clone, PartialEq)]
pub enum ParseErrorKind {
    InvalidLevelChar(char),
    DontCareWithoutAnchor,
    MissingInitialLevel,
    UnclosedHighlight,
    UnopenedHighlightEnd,
    UnclosedQuote,
    AnchorExpectedNameOrDigit,
    AnchorBraceNotClosed,
    AnchorIndexNotParseable(String),
    InvalidAnchorName(AnchorNameError),
    DuplicateAnchor,
    UndefinedAnchor(String),
    InvalidArrowSyntax,
    UnknownArrowAttribute(String),
    DuplicateArrowAttribute(String),
    UnknownParameter(String),
    InvalidColor(ColorError),
    InvalidText(TextError),
    InvalidName(NameError),
    InvalidLength(LengthError),
    /// `(directive, literal)`.
    NumericNotParseable(String, String),
    /// `(directive, literal, limit in units)`.
    NumericOverflow(String, String, u32),
    /// `(directive, value)`.
    NumericNotPositive(String, Ratio),
    /// `(directive, value)`.
    NumericNotNonNegative(String, Ratio),
    InvalidTitleAlign(String),
    InvalidRulerValue(String),
    InvalidSkipSyntax,
    InvalidSkipAmount(String),
    TitleRequiresArgument,
    ClockInvalidAttribute(String),
    UnknownSignalAttribute(String),
    InvalidOverlineSyntax(String),
    InvalidOverlayCoordinate(String),
    /// `(step, slant)`.
    InvalidStepSlant(Px, Px),
    HighlightStyleEmptyAttrName,
    HighlightStyleMissingEquals(String),
    HighlightStyleUnterminatedValue,
}

/// A rejected input: where, how wide, and why.
#[derive(Debug, Clone, PartialEq)]
pub struct ParseError {
    pub location: SourceLocation,
    pub length: u32,
    pub kind: ParseErrorKind,
}

impl ParseError {
    /// An error whose underline is one character wide.
    pub fn new(location: SourceLocation, kind: ParseErrorKind) -> (e: ParseError)
        ensures
            e.location == location,
            e.length == 1,
            e.kind == kind,
    {
        ParseError { location, length: 1, kind }
    }

    pub fn with_length(location: SourceLocation, length: u32, kind: ParseErrorKind) -> (e: ParseError)
        ensures
            e.location == location,
            e.length == length,
            e.kind == kind,
    {
        ParseError { location, length, kind }
    }

    pub fn line(&self) -> (n: u32)
        ensures
            n == self.location.line,
    {
        self.location.line
    }

    pub fn column(&self) -> (n: u32)
        ensures
            n == self.location.column,
    {
        self.location.column
    }

    pub fn length(&self) -> (n: u32)
        ensures
            n == self.length,
    {
        self.length
    }

    pub fn kind(&self) -> (k: &ParseErrorKind)
        ensures
            *k == self.kind,
    {
        &self.kind
    }
}

} // verus!
