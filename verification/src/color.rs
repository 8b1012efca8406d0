//! RGBA colors and their textual forms.

use vstd::prelude::*;
use crate::chars::{span_eq_ignore_case, spec_eq_ignore_case, clamp_u32};
use crate::errors::ColorError;

verus! {

/// An sRGB color with alpha. `a == 0` with all channels zero is `none`.
#[derive(Debug, Clone, Copy, PartialEq, Eq, Structural)]
pub struct Color {
    pub r: u8,
    pub g: u8,
    pub b: u8,
    pub a: u8,
}

pub open spec fn spec_hex_value(c: char) -> Option<u8> {
    if '0' <= c && c <= '9' {
        Some(((c as u32) - ('0' as u32)) as u8)
    } else if 'a' <= c && c <= 'f' {
        Some(((c as u32) - ('a' as u32) + 10) as u8)
    } else if 'A' <= c && c <= 'F' {
        Some(((c as u32) - ('A' as u32) + 10) as u8)
    } else {
        None
    }
}

/// The color a case-insensitive color name stands for.
pub open spec fn spec_named_color(w: Seq<char>) -> Option<Color> {
    if spec_eq_ignore_case(w, seq!['b', 'l', 'a', 'c', 'k']) {
        Some(Color { r: 0, g: 0, b: 0, a: 255 })
    } else if spec_eq_ignore_case(w, seq!['w', 'h', 'i', 't', 'e']) {
        Some(Color { r: 255, g: 255, b: 255, a: 255 })
    } else if spec_eq_ignore_case(w, seq!['r', 'e', 'd']) {
        Some(Color { r: 255, g: 0, b: 0, a: 255 })
    } else if spec_eq_ignore_case(w, seq!['g', 'r', 'e', 'e', 'n']) {
        Some(Color { r: 0, g: 128, b: 0, a: 255 })
    } else if spec_eq_ignore_case(w, seq!['b', 'l', 'u', 'e']) {
        Some(Color { r: 0, g: 0, b: 255, a: 255 })
    } else if spec_eq_ignore_case(w, seq!['y', 'e', 'l', 'l', 'o', 'w']) {
        Some(Color { r: 255, g: 255, b: 0, a: 255 })
    } else if spec_eq_ignore_case(w, seq!['c', 'y', 'a', 'n']) {
        Some(Color { r: 0, g: 255, b: 255, a: 255 })
    } else if spec_eq_ignore_case(w, seq!['m', 'a', 'g', 'e', 'n', 't', 'a']) {
        Some(Color { r: 255, g: 0, b: 255, a: 255 })
    } else if spec_eq_ignore_case(w, seq!['g', 'r', 'a', 'y']) {
        Some(Color { r: 128, g: 128, b: 128, a: 255 })
    } else if spec_eq_ignore_case(w, seq!['g', 'r', 'e', 'y']) {
        Some(Color { r: 128, g: 128, b: 128, a: 255 })
    } else if spec_eq_ignore_case(w, seq!['o', 'r', 'a', 'n', 'g', 'e']) {
        Some(Color { r: 255, g: 165, b: 0, a: 255 })
    } else if spec_eq_ignore_case(w, seq!['p', 'u', 'r', 'p', 'l', 'e']) {
        Some(Color { r: 128, g: 0, b: 128, a: 255 })
    } else if spec_eq_ignore_case(w, seq!['s', 'i', 'l', 'v', 'e', 'r']) {
        Some(Color { r: 192, g: 192, b: 192, a: 255 })
    } else if spec_eq_ignore_case(w, seq!['m', 'a', 'r', 'o', 'o', 'n']) {
        Some(Color { r: 128, g: 0, b: 0, a: 255 })
    } else if spec_eq_ignore_case(w, seq!['o', 'l', 'i', 'v', 'e']) {
        Some(Color { r: 128, g: 128, b: 0, a: 255 })
    } else if spec_eq_ignore_case(w, seq!['l', 'i', 'm', 'e']) {
        Some(Color { r: 0, g: 255, b: 0, a: 255 })
    } else if spec_eq_ignore_case(w, seq!['n', 'a', 'v', 'y']) {
        Some(Color { r: 0, g: 0, b: 128, a: 255 })
    } else if spec_eq_ignore_case(w, seq!['t', 'e', 'a', 'l']) {
        Some(Color { r: 0, g: 128, b: 128, a: 255 })
    } else if spec_eq_ignore_case(w, seq!['a', 'q', 'u', 'a']) {
        Some(Color { r: 0, g: 255, b: 255, a: 255 })
    } else if spec_eq_ignore_case(w, seq!['f', 'u', 'c', 'h', 's', 'i', 'a']) {
        Some(Color { r: 255, g: 0, b: 255, a: 255 })
    } else {
        None
    }
}

/// A hex digit of the literal at `i`, as a number.
pub open spec fn spec_nibble(s: Seq<char>, i: int) -> int {
    spec_hex_value(s[i])->0 as int
}

/// The channels of a `#` literal whose digits are `s[d..d+n]`.
pub open spec fn spec_hex_color(s: Seq<char>, d: int, n: int) -> Color {
    if n == 3 || n == 4 {
        Color {
            r: (spec_nibble(s, d) * 17) as u8,
            g: (spec_nibble(s, d + 1) * 17) as u8,
            b: (spec_nibble(s, d + 2) * 17) as u8,
            a: if n == 4 { (spec_nibble(s, d + 3) * 17) as u8 } else { 255 },
        }
    } else {
        Color {
            r: (spec_nibble(s, d) * 16 + spec_nibble(s, d + 1)) as u8,
            g: (spec_nibble(s, d + 2) * 16 + spec_nibble(s, d + 3)) as u8,
            b: (spec_nibble(s, d + 4) * 16 + spec_nibble(s, d + 5)) as u8,
            a: if n == 8 { (spec_nibble(s, d + 6) * 16 + spec_nibble(s, d + 7)) as u8 } else { 255 },
        }
    }
}

/// Index of the first non-hex character of `s[d..e]`, if any.
pub open spec fn spec_first_non_hex(s: Seq<char>, d: int, e: int) -> Option<int>
    decreases e - d,
{
    if d >= e {
        None
    } else if spec_hex_value(s[d]) is None {
        Some(d)
    } else {
        spec_first_non_hex(s, d + 1, e)
    }
}

/// The reading of the color literal `s[start..end]`.
pub open spec fn spec_color(s: Seq<char>, start: int, end: int) -> Result<Color, ColorError> {
    if start >= end {
        Err(ColorError::Empty)
    } else if spec_eq_ignore_case(s.subrange(start, end), seq!['n', 'o', 'n', 'e']) {
        Ok(Color { r: 0, g: 0, b: 0, a: 0 })
    } else if s[start] == '#' {
        match spec_first_non_hex(s, start + 1, end) {
            Some(i) => Err(ColorError::InvalidHexDigit { char_offset: (if i - start <= u32::MAX { i - start } else { u32::MAX as int }) as u32 }),
            None => {
                let n = end - start - 1;
                if n == 3 || n == 4 || n == 6 || n == 8 {
                    Ok(spec_hex_color(s, start + 1, n))
                } else {
                    Err(ColorError::InvalidHexLength)
                }
            },
        }
    } else {
        match spec_named_color(s.subrange(start, end)) {
            Some(c) => Ok(c),
            None => Err(ColorError::UnknownName),
        }
    }
}

fn hex_value(c: char) -> (r: Option<u8>)
    ensures
        r == spec_hex_value(c),
{
    if '0' <= c && c <= '9' {
        Some(((c as u32) - ('0' as u32)) as u8)
    } else if 'a' <= c && c <= 'f' {
        Some(((c as u32) - ('a' as u32) + 10) as u8)
    } else if 'A' <= c && c <= 'F' {
        Some(((c as u32) - ('A' as u32) + 10) as u8)
    } else {
        None
    }
}

fn named_color(chars: &[char], start: usize, end: usize) -> (r: Option<Color>)
    requires
        start <= end <= chars@.len(),
    ensures
        r == spec_named_color(chars@.subrange(start as int, end as int)),
{
    if span_eq_ignore_case(chars, start, end, &['b', 'l', 'a', 'c', 'k']) {
        assert(['b', 'l', 'a', 'c', 'k']@ =~= seq!['b', 'l', 'a', 'c', 'k']);
        return Some(Color { r: 0, g: 0, b: 0, a: 255 });
    }
    assert(['b', 'l', 'a', 'c', 'k']@ =~= seq!['b', 'l', 'a', 'c', 'k']);
    if span_eq_ignore_case(chars, start, end, &['w', 'h', 'i', 't', 'e']) {
        assert(['w', 'h', 'i', 't', 'e']@ =~= seq!['w', 'h', 'i', 't', 'e']);
        return Some(Color { r: 255, g: 255, b: 255, a: 255 });
    }
    assert(['w', 'h', 'i', 't', 'e']@ =~= seq!['w', 'h', 'i', 't', 'e']);
    if span_eq_ignore_case(chars, start, end, &['r', 'e', 'd']) {
        assert(['r', 'e', 'd']@ =~= seq!['r', 'e', 'd']);
        return Some(Color { r: 255, g: 0, b: 0, a: 255 });
    }
    assert(['r', 'e', 'd']@ =~= seq!['r', 'e', 'd']);
    if span_eq_ignore_case(chars, start, end, &['g', 'r', 'e', 'e', 'n']) {
        assert(['g', 'r', 'e', 'e', 'n']@ =~= seq!['g', 'r', 'e', 'e', 'n']);
        return Some(Color { r: 0, g: 128, b: 0, a: 255 });
    }
    assert(['g', 'r', 'e', 'e', 'n']@ =~= seq!['g', 'r', 'e', 'e', 'n']);
    if span_eq_ignore_case(chars, start, end, &['b', 'l', 'u', 'e']) {
        assert(['b', 'l', 'u', 'e']@ =~= seq!['b', 'l', 'u', 'e']);
        return Some(Color { r: 0, g: 0, b: 255, a: 255 });
    }
    assert(['b', 'l', 'u', 'e']@ =~= seq!['b', 'l', 'u', 'e']);
    if span_eq_ignore_case(chars, start, end, &['y', 'e', 'l', 'l', 'o', 'w']) {
        assert(['y', 'e', 'l', 'l', 'o', 'w']@ =~= seq!['y', 'e', 'l', 'l', 'o', 'w']);
        return Some(Color { r: 255, g: 255, b: 0, a: 255 });
    }
    assert(['y', 'e', 'l', 'l', 'o', 'w']@ =~= seq!['y', 'e', 'l', 'l', 'o', 'w']);
    if span_eq_ignore_case(chars, start, end, &['c', 'y', 'a', 'n']) {
        assert(['c', 'y', 'a', 'n']@ =~= seq!['c', 'y', 'a', 'n']);
        return Some(Color { r: 0, g: 255, b: 255, a: 255 });
    }
    assert(['c', 'y', 'a', 'n']@ =~= seq!['c', 'y', 'a', 'n']);
    if span_eq_ignore_case(chars, start, end, &['m', 'a', 'g', 'e', 'n', 't', 'a']) {
        assert(['m', 'a', 'g', 'e', 'n', 't', 'a']@ =~= seq!['m', 'a', 'g', 'e', 'n', 't', 'a']);
        return Some(Color { r: 255, g: 0, b: 255, a: 255 });
    }
    assert(['m', 'a', 'g', 'e', 'n', 't', 'a']@ =~= seq!['m', 'a', 'g', 'e', 'n', 't', 'a']);
    if span_eq_ignore_case(chars, start, end, &['g', 'r', 'a', 'y']) {
        assert(['g', 'r', 'a', 'y']@ =~= seq!['g', 'r', 'a', 'y']);
        return Some(Color { r: 128, g: 128, b: 128, a: 255 });
    }
    assert(['g', 'r', 'a', 'y']@ =~= seq!['g', 'r', 'a', 'y']);
    if span_eq_ignore_case(chars, start, end, &['g', 'r', 'e', 'y']) {
        assert(['g', 'r', 'e', 'y']@ =~= seq!['g', 'r', 'e', 'y']);
        return Some(Color { r: 128, g: 128, b: 128, a: 255 });
    }
    assert(['g', 'r', 'e', 'y']@ =~= seq!['g', 'r', 'e', 'y']);
    if span_eq_ignore_case(chars, start, end, &['o', 'r', 'a', 'n', 'g', 'e']) {
        assert(['o', 'r', 'a', 'n', 'g', 'e']@ =~= seq!['o', 'r', 'a', 'n', 'g', 'e']);
        return Some(Color { r: 255, g: 165, b: 0, a: 255 });
    }
    assert(['o', 'r', 'a', 'n', 'g', 'e']@ =~= seq!['o', 'r', 'a', 'n', 'g', 'e']);
    if span_eq_ignore_case(chars, start, end, &['p', 'u', 'r', 'p', 'l', 'e']) {
        assert(['p', 'u', 'r', 'p', 'l', 'e']@ =~= seq!['p', 'u', 'r', 'p', 'l', 'e']);
        return Some(Color { r: 128, g: 0, b: 128, a: 255 });
    }
    assert(['p', 'u', 'r', 'p', 'l', 'e']@ =~= seq!['p', 'u', 'r', 'p', 'l', 'e']);
    if span_eq_ignore_case(chars, start, end, &['s', 'i', 'l', 'v', 'e', 'r']) {
        assert(['s', 'i', 'l', 'v', 'e', 'r']@ =~= seq!['s', 'i', 'l', 'v', 'e', 'r']);
        return Some(Color { r: 192, g: 192, b: 192, a: 255 });
    }
    assert(['s', 'i', 'l', 'v', 'e', 'r']@ =~= seq!['s', 'i', 'l', 'v', 'e', 'r']);
    if span_eq_ignore_case(chars, start, end, &['m', 'a', 'r', 'o', 'o', 'n']) {
        assert(['m', 'a', 'r', 'o', 'o', 'n']@ =~= seq!['m', 'a', 'r', 'o', 'o', 'n']);
        return Some(Color { r: 128, g: 0, b: 0, a: 255 });
    }
    assert(['m', 'a', 'r', 'o', 'o', 'n']@ =~= seq!['m', 'a', 'r', 'o', 'o', 'n']);
    if span_eq_ignore_case(chars, start, end, &['o', 'l', 'i', 'v', 'e']) {
        assert(['o', 'l', 'i', 'v', 'e']@ =~= seq!['o', 'l', 'i', 'v', 'e']);
        return Some(Color { r: 128, g: 128, b: 0, a: 255 });
    }
    assert(['o', 'l', 'i', 'v', 'e']@ =~= seq!['o', 'l', 'i', 'v', 'e']);
    if span_eq_ignore_case(chars, start, end, &['l', 'i', 'm', 'e']) {
        assert(['l', 'i', 'm', 'e']@ =~= seq!['l', 'i', 'm', 'e']);
        return Some(Color { r: 0, g: 255, b: 0, a: 255 });
    }
    assert(['l', 'i', 'm', 'e']@ =~= seq!['l', 'i', 'm', 'e']);
    if span_eq_ignore_case(chars, start, end, &['n', 'a', 'v', 'y']) {
        assert(['n', 'a', 'v', 'y']@ =~= seq!['n', 'a', 'v', 'y']);
        return Some(Color { r: 0, g: 0, b: 128, a: 255 });
    }
    assert(['n', 'a', 'v', 'y']@ =~= seq!['n', 'a', 'v', 'y']);
    if span_eq_ignore_case(chars, start, end, &['t', 'e', 'a', 'l']) {
        assert(['t', 'e', 'a', 'l']@ =~= seq!['t', 'e', 'a', 'l']);
        return Some(Color { r: 0, g: 128, b: 128, a: 255 });
    }
    assert(['t', 'e', 'a', 'l']@ =~= seq!['t', 'e', 'a', 'l']);
    if span_eq_ignore_case(chars, start, end, &['a', 'q', 'u', 'a']) {
        assert(['a', 'q', 'u', 'a']@ =~= seq!['a', 'q', 'u', 'a']);
        return Some(Color { r: 0, g: 255, b: 255, a: 255 });
    }
    assert(['a', 'q', 'u', 'a']@ =~= seq!['a', 'q', 'u', 'a']);
    if span_eq_ignore_case(chars, start, end, &['f', 'u', 'c', 'h', 's', 'i', 'a']) {
        assert(['f', 'u', 'c', 'h', 's', 'i', 'a']@ =~= seq!['f', 'u', 'c', 'h', 's', 'i', 'a']);
        return Some(Color { r: 255, g: 0, b: 255, a: 255 });
    }
    assert(['f', 'u', 'c', 'h', 's', 'i', 'a']@ =~= seq!['f', 'u', 'c', 'h', 's', 'i', 'a']);
    None
}

fn first_non_hex(chars: &[char], d: usize, e: usize) -> (r: Option<usize>)
    requires
        d <= e <= chars@.len(),
    ensures
        r matches Some(i) ==> spec_first_non_hex(chars@, d as int, e as int) == Some(i as int) && d <= i < e,
        r is None ==> spec_first_non_hex(chars@, d as int, e as int) is None,
        r is None ==> forall|k: int| d <= k < e ==> spec_hex_value(#[trigger] chars@[k]) is Some,
{
    let mut i = d;
    while i < e
        invariant
            d <= i <= e <= chars@.len(),
            spec_first_non_hex(chars@, d as int, e as int) == spec_first_non_hex(chars@, i as int, e as int),
            forall|k: int| d <= k < i ==> spec_hex_value(#[trigger] chars@[k]) is Some,
        decreases e - i,
    {
        if hex_value(chars[i]).is_none() {
            return Some(i);
        }
        i = i + 1;
    }
    None
}

fn nibble(chars: &[char], i: usize) -> (v: u8)
    requires
        i < chars@.len(),
        spec_hex_value(chars@[i as int]) is Some,
    ensures
        v as int == spec_nibble(chars@, i as int),
        v < 16,
{
    match hex_value(chars[i]) {
        Some(v) => v,
        None => 0,
    }
}

impl Color {
    pub open spec fn spec_black() -> Color {
        Color { r: 0, g: 0, b: 0, a: 255 }
    }

    pub open spec fn spec_red() -> Color {
        Color { r: 255, g: 0, b: 0, a: 255 }
    }

    pub fn none() -> (c: Color)
        ensures
            c == (Color { r: 0, g: 0, b: 0, a: 0 }),
    {
        Color { r: 0, g: 0, b: 0, a: 0 }
    }

    /// Whether the color is `none`: fully transparent, so nothing is drawn.
    pub fn is_none(&self) -> (b: bool)
        ensures
            b == (self.a == 0),
    {
        self.a == 0
    }

    pub fn black() -> (c: Color)
        ensures
            c == (Color { r: 0, g: 0, b: 0, a: 255 }),
    {
        Color { r: 0, g: 0, b: 0, a: 255 }
    }

    pub fn red() -> (c: Color)
        ensures
            c == (Color { r: 255, g: 0, b: 0, a: 255 }),
    {
        Color { r: 255, g: 0, b: 0, a: 255 }
    }

    /// The default `@ruler` line color, `#a0a0a0`.
    pub fn ruler_default() -> (c: Color)
        ensures
            c == (Color { r: 160, g: 160, b: 160, a: 255 }),
    {
        Color { r: 160, g: 160, b: 160, a: 255 }
    }

    /// Reads a color literal: `none`, `#rgb`, `#rgba`, `#rrggbb`,
    /// `#rrggbbaa`, or a color name (all case-insensitive).
    pub fn parse(chars: &[char], start: usize, end: usize) -> (r: Result<Color, ColorError>)
        requires
            start <= end <= chars@.len(),
        ensures
            r == spec_color(chars@, start as int, end as int),
    {
        if start >= end {
            return Err(ColorError::Empty);
        }
        if span_eq_ignore_case(chars, start, end, &['n', 'o', 'n', 'e']) {
            assert(['n', 'o', 'n', 'e']@ =~= seq!['n', 'o', 'n', 'e']);
            return Ok(Color::none());
        }
        assert(['n', 'o', 'n', 'e']@ =~= seq!['n', 'o', 'n', 'e']);
        if chars[start] == '#' {
            match first_non_hex(chars, start + 1, end) {
                Some(i) => Err(ColorError::InvalidHexDigit { char_offset: clamp_u32(i - start) }),
                None => {
                    let n = end - start - 1;
                    let d = start + 1;
                    if n == 3 || n == 4 {
                        let r = nibble(chars, d) * 17;
                        let g = nibble(chars, d + 1) * 17;
                        let b = nibble(chars, d + 2) * 17;
                        let a = if n == 4 { nibble(chars, d + 3) * 17 } else { 255 };
                        Ok(Color { r, g, b, a })
                    } else if n == 6 || n == 8 {
                        let r = nibble(chars, d) * 16 + nibble(chars, d + 1);
                        let g = nibble(chars, d + 2) * 16 + nibble(chars, d + 3);
                        let b = nibble(chars, d + 4) * 16 + nibble(chars, d + 5);
                        let a = if n == 8 { nibble(chars, d + 6) * 16 + nibble(chars, d + 7) } else { 255 };
                        Ok(Color { r, g, b, a })
                    } else {
                        Err(ColorError::InvalidHexLength)
                    }
                },
            }
        } else {
            match named_color(chars, start, end) {
                Some(c) => Ok(c),
                None => Err(ColorError::UnknownName),
            }
        }
    }

    /// Reads a color from a whole string.
    pub fn parse_str(text: &str) -> (r: Result<Color, ColorError>)
        ensures
            r == spec_color(text@, 0, text@.len() as int),
    {
        let chars = crate::chars::chars_of(text);
        Self::parse(&chars, 0, chars.len())
    }
}

} // verus!
