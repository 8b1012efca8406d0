//! Reading `@{name}` and `@N` anchor tokens.

use vstd::prelude::*;
use crate::anchor::{AnchorId, AnchorKey, AnchorName, spec_is_anchor_name_char};
use crate::chars::{clamp_u32, is_ascii_digit, spec_is_ascii_digit, string_of};
use crate::errors::{AnchorNameError, ParseError, ParseErrorKind, SourceLocation, spec_clamp_u32, spec_pos_ok, spec_shifted};
use super::directive::spec_sat_add;
use crate::number::spec_digit_run_end;
use super::attr::{first_index, parse_u32, spec_first_index, spec_u32_literal};

verus! {

fn digit_run_end(chars: &[char], i: usize, end: usize) -> (j: usize)
    requires
        i <= end <= chars@.len(),
    ensures
        j as int == spec_digit_run_end(chars@, i as int, end as int),
        i <= j <= end,
        forall|m: int| i <= m < j ==> spec_is_ascii_digit(#[trigger] chars@[m]),
{
    let mut j = i;
    while j < end && is_ascii_digit(chars[j])
        invariant
            i <= j <= end <= chars@.len(),
            spec_digit_run_end(chars@, i as int, end as int) == spec_digit_run_end(chars@, j as int, end as int),
            forall|m: int| i <= m < j ==> spec_is_ascii_digit(#[trigger] chars@[m]),
        decreases end - j,
    {
        j = j + 1;
    }
    j
}

/// The anchor identifier that starts at `s[at]` and ends before `end`,
/// with the index just after it: `{name}` (one or more letters, digits,
/// `_` or `-`, up to the first `}`) or a decimal `u32`.
pub open spec fn spec_scan_anchor(s: Seq<char>, at: int, end: int) -> Option<(AnchorKey, int)> {
    if at < end && s[at] == '{' {
        match spec_first_index(s, at + 1, end, '}') {
            Some(c) => if c > at + 1 && forall|k: int| at + 1 <= k < c ==> spec_is_anchor_name_char(#[trigger] s[k]) {
                Some(((true, s.subrange(at + 1, c), 0u32), c + 1))
            } else {
                None
            },
            None => None,
        }
    } else if at < end && spec_is_ascii_digit(s[at]) {
        match spec_u32_literal(s, at, spec_digit_run_end(s, at, end)) {
            Some(v) => Some(((false, Seq::empty(), v), spec_digit_run_end(s, at, end))),
            None => None,
        }
    } else {
        None
    }
}

/// Why the anchor identifier starting at `s[at]` (before `end`), after
/// an `@` at `location`, is refused with `e`: neither `{` nor a digit
/// follows, the `{` is not closed, the name is empty (pointed at its
/// braces' inside) or holds a character other than a letter, digit, `_`
/// or `-` (pointed at), or the digits do not make a `u32`.
pub open spec fn spec_anchor_error(s: Seq<char>, at: int, end: int, location: SourceLocation, e: ParseError) -> bool {
    if at < end && s[at] == '{' {
        match spec_first_index(s, at + 1, end, '}') {
            None => e.kind == ParseErrorKind::AnchorBraceNotClosed && e.location == location && e.length == 1,
            Some(c) => if c == at + 1 {
                e.kind == ParseErrorKind::InvalidAnchorName(AnchorNameError::Empty) && e.location == spec_shifted(location, 2)
                    && e.length == 0
            } else {
                exists|i: int| at + 1 <= i < c && !spec_is_anchor_name_char(#[trigger] s[i])
                    && (forall|k: int| at + 1 <= k < i ==> spec_is_anchor_name_char(#[trigger] s[k]))
                    && e.kind == ParseErrorKind::InvalidAnchorName(AnchorNameError::InvalidChar {
                        char_offset: spec_clamp_u32(i - (at + 1)),
                    })
                    && e.location == spec_shifted(location, spec_sat_add(2, spec_clamp_u32(i - (at + 1))))
                    && e.length == 1
            },
        }
    } else if at < end && spec_is_ascii_digit(s[at]) {
        (e.kind matches ParseErrorKind::AnchorIndexNotParseable(t) && t@ == s.subrange(at, spec_digit_run_end(s, at, end)))
            && e.location == location && e.length == 1
    } else {
        e.kind == ParseErrorKind::AnchorExpectedNameOrDigit && e.location == location && e.length == 1
    }
}

/// Reads the anchor identifier that follows an `@` whose column is
/// `location`: `{name}` or a run of decimal digits starting at
/// `chars[at]`. Returns the identifier and the index just after it.
pub fn scan_anchor(chars: &[char], at: usize, end: usize, location: SourceLocation) -> (r: Result<(AnchorId, usize), ParseError>)
    requires
        at <= end <= chars@.len(),
        spec_pos_ok(location),
    ensures
        r matches Err(e) ==> spec_pos_ok(e.location),
        r is Ok <==> spec_scan_anchor(chars@, at as int, end as int) is Some,
        r matches Ok((id, next)) ==> spec_scan_anchor(chars@, at as int, end as int) == Some((id@, next as int)),
        r matches Err(e) ==> spec_anchor_error(chars@, at as int, end as int, location, e),
        match r {
            Ok((id, next)) => {
                &&& at < next <= end
                &&& chars@[at as int] == '{' ==> {
                    &&& spec_first_index(chars@, at + 1, end as int, '}') == Some(next - 1)
                    &&& id@ == (true, chars@.subrange(at + 1, next - 1), 0u32)
                }
                &&& chars@[at as int] != '{' ==> {
                    &&& spec_is_ascii_digit(chars@[at as int])
                    &&& next == spec_digit_run_end(chars@, at as int, end as int)
                    &&& spec_u32_literal(chars@, at as int, next as int) matches Some(v) && id@ == (false, Seq::<char>::empty(), v)
                }
            },
            Err(e) => e.location.line == location.line && {
                ||| (at >= end || (chars@[at as int] != '{' && !spec_is_ascii_digit(chars@[at as int])))
                    && e.kind == ParseErrorKind::AnchorExpectedNameOrDigit && e.location == location
                ||| at < end && chars@[at as int] == '{' && spec_first_index(chars@, at + 1, end as int, '}') is None
                    && e.kind == ParseErrorKind::AnchorBraceNotClosed && e.location == location
                ||| at < end && chars@[at as int] == '{' && e.kind is InvalidAnchorName
                    && (spec_first_index(chars@, at + 1, end as int, '}') matches Some(c)
                    && (c == at + 1 || exists|i: int| at + 1 <= i < c && !spec_is_anchor_name_char(#[trigger] chars@[i])))
                ||| at < end && spec_is_ascii_digit(chars@[at as int])
                    && spec_u32_literal(chars@, at as int, spec_digit_run_end(chars@, at as int, end as int)) is None
                    && (e.kind matches ParseErrorKind::AnchorIndexNotParseable(t)
                        && t@ == chars@.subrange(at as int, spec_digit_run_end(chars@, at as int, end as int)))
                    && e.location == location
            },
        },
{
    if at < end && chars[at] == '{' {
        let close = match first_index(chars, at + 1, end, '}') {
            Some(c) => c,
            None => return Err(ParseError::with_length(location, 1, ParseErrorKind::AnchorBraceNotClosed)),
        };
        match AnchorName::parse(chars, at + 1, close) {
            Ok(name) => Ok((AnchorId::Named(name), close + 1)),
            Err(error) => {
                let (offset, length) = match error {
                    AnchorNameError::InvalidChar { char_offset } => (2u32.saturating_add(char_offset), 1u32),
                    AnchorNameError::Empty => (2u32, clamp_u32(close - (at + 1))),
                };
                Err(ParseError::with_length(
                    location.shifted(offset),
                    length,
                    ParseErrorKind::InvalidAnchorName(error),
                ))
            },
        }
    } else if at < end && is_ascii_digit(chars[at]) {
        let next = digit_run_end(chars, at, end);
        match parse_u32(chars, at, next) {
            Some(v) => Ok((AnchorId::Indexed(v), next)),
            None => Err(ParseError::with_length(
                location,
                1,
                ParseErrorKind::AnchorIndexNotParseable(string_of(chars, at, next)),
            )),
        }
    } else {
        Err(ParseError::with_length(location, 1, ParseErrorKind::AnchorExpectedNameOrDigit))
    }
}

} // verus!
