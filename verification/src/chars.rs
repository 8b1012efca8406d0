//! Character classes and span utilities over `[char]` buffers.
//!
//! The parser works on the Unicode scalar values of its input, so every
//! position it reports (columns, lengths) is a character count.

use vstd::prelude::*;
use vstd::std_specs::iter::IteratorSpec;

verus! {

broadcast use vstd::string::axiom_spec_iter, vstd::string::next_postcondition;

/// Unicode `White_Space` property, as used by `char::is_whitespace`.
pub open spec fn spec_is_whitespace(c: char) -> bool {
    ||| ('\u{9}' <= c && c <= '\u{d}')
    ||| c == ' '
    ||| c == '\u{85}'
    ||| c == '\u{a0}'
    ||| c == '\u{1680}'
    ||| ('\u{2000}' <= c && c <= '\u{200a}')
    ||| c == '\u{2028}'
    ||| c == '\u{2029}'
    ||| c == '\u{202f}'
    ||| c == '\u{205f}'
    ||| c == '\u{3000}'
}

/// Unicode general category `Cc`, as used by `char::is_control`.
pub open spec fn spec_is_control(c: char) -> bool {
    (c as u32) < 0x20 || (0x7f <= (c as u32) && (c as u32) < 0xa0)
}

pub open spec fn spec_is_ascii_digit(c: char) -> bool {
    '0' <= c && c <= '9'
}

pub open spec fn spec_is_space_or_tab(c: char) -> bool {
    c == ' ' || c == '\t'
}

pub open spec fn spec_to_ascii_lower(c: char) -> char {
    if 'A' <= c && c <= 'Z' {
        ((c as u32) + 32) as char
    } else {
        c
    }
}

pub fn is_whitespace(c: char) -> (b: bool)
    ensures
        b == spec_is_whitespace(c),
{
    ('\u{9}' <= c && c <= '\u{d}') || c == ' ' || c == '\u{85}' || c == '\u{a0}' || c
        == '\u{1680}' || ('\u{2000}' <= c && c <= '\u{200a}') || c == '\u{2028}' || c
        == '\u{2029}' || c == '\u{202f}' || c == '\u{205f}' || c == '\u{3000}'
}

pub fn is_control(c: char) -> (b: bool)
    ensures
        b == spec_is_control(c),
{
    let code = c as u32;
    code < 0x20 || (0x7f <= code && code < 0xa0)
}

pub fn is_ascii_digit(c: char) -> (b: bool)
    ensures
        b == spec_is_ascii_digit(c),
{
    '0' <= c && c <= '9'
}

pub fn is_space_or_tab(c: char) -> (b: bool)
    ensures
        b == spec_is_space_or_tab(c),
{
    c == ' ' || c == '\t'
}

pub fn to_ascii_lower(c: char) -> (r: char)
    ensures
        r == spec_to_ascii_lower(c),
{
    if 'A' <= c && c <= 'Z' {
        let code = (c as u32) + 32;
        assert(code < 128);
        char_from_code(code)
    } else {
        c
    }
}

/// The ASCII character with a given code.
fn char_from_code(code: u32) -> (c: char)
    requires
        code < 128,
    ensures
        c == code as char,
        c as u32 == code,
{
    let b: u8 = code as u8;
    b as char
}

/// The characters of a string slice, in order.
pub fn chars_of(s: &str) -> (v: Vec<char>)
    ensures
        v@ == s@,
{
    let mut it = s.chars();
    let mut v: Vec<char> = Vec::new();
    loop
        invariant
            it.obeys_prophetic_iter_laws(),
            v@ + it.remaining() == s@,
        decreases s@.len() - v.len(),
    {
        match it.next() {
            Some(c) => {
                v.push(c);
                assert(v@ + it.remaining() =~= s@);
            },
            None => {
                assert(v@ =~= s@);
                return v;
            },
        }
    }
}

/// Appends one character to a string.
#[verifier::external_body]
pub(crate) fn push_char(s: &mut String, c: char)
    ensures
        final(s)@ == old(s)@.push(c),
{
    s.push(c);
}

/// The string whose characters are `chars[start..end]`.
pub fn string_of(chars: &[char], start: usize, end: usize) -> (s: String)
    requires
        start <= end <= chars@.len(),
    ensures
        s@ == chars@.subrange(start as int, end as int),
{
    let mut s = String::new();
    let mut i = start;
    while i < end
        invariant
            start <= i <= end <= chars@.len(),
            s@ == chars@.subrange(start as int, i as int),
        decreases end - i,
    {
        push_char(&mut s, chars[i]);
        assert(s@ =~= chars@.subrange(start as int, i + 1));
        i = i + 1;
    }
    s
}

/// A copy of `chars[start..end]`.
pub fn sub_vec(chars: &[char], start: usize, end: usize) -> (v: Vec<char>)
    requires
        start <= end <= chars@.len(),
    ensures
        v@ == chars@.subrange(start as int, end as int),
{
    let mut v: Vec<char> = Vec::new();
    let mut i = start;
    while i < end
        invariant
            start <= i <= end <= chars@.len(),
            v@ == chars@.subrange(start as int, i as int),
        decreases end - i,
    {
        v.push(chars[i]);
        assert(v@ =~= chars@.subrange(start as int, i + 1));
        i = i + 1;
    }
    v
}

/// First index at or after `start` whose character is not whitespace
/// (`end` when every character of the span is whitespace).
pub open spec fn spec_skip_ws_forward(s: Seq<char>, start: int, end: int) -> int
    decreases end - start,
{
    if start >= end {
        end
    } else if spec_is_whitespace(s[start]) {
        spec_skip_ws_forward(s, start + 1, end)
    } else {
        start
    }
}

/// One past the last index before `end` whose character is not whitespace
/// (`start` when every character of the span is whitespace).
pub open spec fn spec_skip_ws_backward(s: Seq<char>, start: int, end: int) -> int
    decreases end - start,
{
    if start >= end {
        start
    } else if spec_is_whitespace(s[end - 1]) {
        spec_skip_ws_backward(s, start, end - 1)
    } else {
        end
    }
}

/// The span `(a, b)` of `s[start..end]` without leading and trailing
/// whitespace (`str::trim`).
pub open spec fn spec_trim(s: Seq<char>, start: int, end: int) -> (int, int) {
    let a = spec_skip_ws_forward(s, start, end);
    (a, spec_skip_ws_backward(s, a, end))
}

pub proof fn lemma_skip_forward_bounds(s: Seq<char>, start: int, end: int)
    requires
        start <= end,
    ensures
        start <= spec_skip_ws_forward(s, start, end) <= end,
    decreases end - start,
{
    if start < end && spec_is_whitespace(s[start]) {
        lemma_skip_forward_bounds(s, start + 1, end);
    }
}

proof fn lemma_skip_backward_bounds(s: Seq<char>, start: int, end: int)
    requires
        start <= end,
    ensures
        start <= spec_skip_ws_backward(s, start, end) <= end,
    decreases end - start,
{
    if start < end && spec_is_whitespace(s[end - 1]) {
        lemma_skip_backward_bounds(s, start, end - 1);
    }
}

/// `str::trim` on the span `chars[start..end]`: returns the trimmed span.
pub fn trim_span(chars: &[char], start: usize, end: usize) -> (r: (usize, usize))
    requires
        start <= end <= chars@.len(),
    ensures
        r.0 as int == spec_trim(chars@, start as int, end as int).0,
        r.1 as int == spec_trim(chars@, start as int, end as int).1,
        start <= r.0 <= r.1 <= end,
{
    let mut a = start;
    while a < end && is_whitespace(chars[a])
        invariant
            start <= a <= end <= chars@.len(),
            spec_skip_ws_forward(chars@, start as int, end as int) == spec_skip_ws_forward(
                chars@,
                a as int,
                end as int,
            ),
        decreases end - a,
    {
        a = a + 1;
    }
    let mut b = end;
    while b > a && is_whitespace(chars[b - 1])
        invariant
            start <= a <= b <= end <= chars@.len(),
            spec_skip_ws_forward(chars@, start as int, end as int) == a,
            spec_skip_ws_backward(chars@, a as int, end as int) == spec_skip_ws_backward(
                chars@,
                a as int,
                b as int,
            ),
        decreases b - a,
    {
        b = b - 1;
    }
    (a, b)
}

/// Index of the first character after the leading ASCII spaces and tabs of
/// `chars[start..end]`.
pub open spec fn spec_skip_space_tab(s: Seq<char>, start: int, end: int) -> int
    decreases end - start,
{
    if start >= end {
        end
    } else if spec_is_space_or_tab(s[start]) {
        spec_skip_space_tab(s, start + 1, end)
    } else {
        start
    }
}

/// One past the last character of `chars[start..end]` that is not an ASCII
/// space or tab.
pub open spec fn spec_skip_space_tab_back(s: Seq<char>, start: int, end: int) -> int
    decreases end - start,
{
    if start >= end {
        start
    } else if spec_is_space_or_tab(s[end - 1]) {
        spec_skip_space_tab_back(s, start, end - 1)
    } else {
        end
    }
}

/// `trim_matches(&[' ', '\t'])` on a span.
pub fn trim_space_tab(chars: &[char], start: usize, end: usize) -> (r: (usize, usize))
    requires
        start <= end <= chars@.len(),
    ensures
        r.0 as int == spec_skip_space_tab(chars@, start as int, end as int),
        r.1 as int == spec_skip_space_tab_back(chars@, r.0 as int, end as int),
        start <= r.0 <= r.1 <= end,
{
    let mut a = start;
    while a < end && is_space_or_tab(chars[a])
        invariant
            start <= a <= end <= chars@.len(),
            spec_skip_space_tab(chars@, start as int, end as int) == spec_skip_space_tab(
                chars@,
                a as int,
                end as int,
            ),
        decreases end - a,
    {
        a = a + 1;
    }
    let mut b = end;
    while b > a && is_space_or_tab(chars[b - 1])
        invariant
            start <= a <= b <= end <= chars@.len(),
            spec_skip_space_tab(chars@, start as int, end as int) == a,
            spec_skip_space_tab_back(chars@, a as int, end as int) == spec_skip_space_tab_back(
                chars@,
                a as int,
                b as int,
            ),
        decreases b - a,
    {
        b = b - 1;
    }
    (a, b)
}

/// Whether `chars[start..end]` equals the ASCII word `word` exactly.
pub fn span_eq(chars: &[char], start: usize, end: usize, word: &[char]) -> (b: bool)
    requires
        start <= end <= chars@.len(),
    ensures
        b == (chars@.subrange(start as int, end as int) == word@),
{
    if end - start != word.len() {
        assert(chars@.subrange(start as int, end as int).len() != word@.len());
        return false;
    }
    let mut i: usize = 0;
    while i < word.len()
        invariant
            start <= end <= chars@.len(),
            end - start == word@.len(),
            i <= word@.len(),
            forall|k: int| 0 <= k < i ==> chars@[start + k] == word@[k],
        decreases word.len() - i,
    {
        if chars[start + i] != word[i] {
            assert(chars@.subrange(start as int, end as int)[i as int] != word@[i as int]);
            return false;
        }
        i = i + 1;
    }
    assert(chars@.subrange(start as int, end as int) =~= word@);
    true
}

/// ASCII case-insensitive comparison of a span with a lower-case word.
pub open spec fn spec_eq_ignore_case(s: Seq<char>, word: Seq<char>) -> bool {
    s.len() == word.len() && forall|k: int|
        0 <= k < s.len() ==> spec_to_ascii_lower(#[trigger] s[k]) == spec_to_ascii_lower(word[k])
}

pub fn span_eq_ignore_case(chars: &[char], start: usize, end: usize, word: &[char]) -> (b: bool)
    requires
        start <= end <= chars@.len(),
    ensures
        b == spec_eq_ignore_case(chars@.subrange(start as int, end as int), word@),
{
    let ghost sub = chars@.subrange(start as int, end as int);
    if end - start != word.len() {
        return false;
    }
    let mut i: usize = 0;
    while i < word.len()
        invariant
            start <= end <= chars@.len(),
            end - start == word@.len(),
            sub == chars@.subrange(start as int, end as int),
            i <= word@.len(),
            forall|k: int|
                0 <= k < i ==> spec_to_ascii_lower(#[trigger] sub[k]) == spec_to_ascii_lower(
                    word@[k],
                ),
        decreases word.len() - i,
    {
        if to_ascii_lower(chars[start + i]) != to_ascii_lower(word[i]) {
            assert(spec_to_ascii_lower(sub[i as int]) != spec_to_ascii_lower(word@[i as int]));
            return false;
        }
        i = i + 1;
    }
    true
}

/// Index of the first occurrence of `c` in `chars[start..end]`, if any.
pub fn find_char(chars: &[char], start: usize, end: usize, c: char) -> (r: Option<usize>)
    requires
        start <= end <= chars@.len(),
    ensures
        match r {
            Some(i) => start <= i < end && chars@[i as int] == c && forall|k: int|
                start <= k < i ==> chars@[k] != c,
            None => forall|k: int| start <= k < end ==> chars@[k] != c,
        },
{
    let mut i = start;
    while i < end
        invariant
            start <= i <= end <= chars@.len(),
            forall|k: int| start <= k < i ==> chars@[k] != c,
        decreases end - i,
    {
        if chars[i] == c {
            return Some(i);
        }
        i = i + 1;
    }
    None
}

/// Index of the last `c` in `s[start..end]`.
pub open spec fn spec_last_index(s: Seq<char>, start: int, end: int, c: char) -> Option<int>
    decreases end - start,
{
    if end <= start {
        None
    } else if s[end - 1] == c {
        Some(end - 1)
    } else {
        spec_last_index(s, start, end - 1, c)
    }
}

/// Index of the last occurrence of `c` in `chars[start..end]`, if any.
pub fn rfind_char(chars: &[char], start: usize, end: usize, c: char) -> (r: Option<usize>)
    requires
        start <= end <= chars@.len(),
    ensures
        r matches Some(i) ==> spec_last_index(chars@, start as int, end as int, c) == Some(i as int),
        r is None ==> spec_last_index(chars@, start as int, end as int, c) is None,
        match r {
            Some(i) => start <= i < end && chars@[i as int] == c && forall|k: int|
                i < k < end ==> chars@[k] != c,
            None => forall|k: int| start <= k < end ==> chars@[k] != c,
        },
{
    let mut i = end;
    while i > start
        invariant
            start <= i <= end <= chars@.len(),
            forall|k: int| i <= k < end ==> chars@[k] != c,
            spec_last_index(chars@, start as int, end as int, c) == spec_last_index(chars@, start as int, i as int, c),
        decreases i - start,
    {
        if chars[i - 1] == c {
            return Some(i - 1);
        }
        i = i - 1;
    }
    None
}

/// Saturating conversion of a count to `u32`.
pub fn clamp_u32(n: usize) -> (r: u32)
    ensures
        r as int == if n <= u32::MAX { n as int } else { u32::MAX as int },
{
    if n <= 0xffff_ffffusize {
        n as u32
    } else {
        0xffff_ffffu32
    }
}

} // verus!

verus! {

/// Appends a string slice to a string.
pub fn push_str(s: &mut String, t: &str)
    ensures
        final(s)@ == old(s)@ + t@,
{
    let v = chars_of(t);
    let mut i: usize = 0;
    while i < v.len()
        invariant
            i <= v@.len(),
            v@ == t@,
            s@ == old(s)@ + v@.subrange(0, i as int),
        decreases v.len() - i,
    {
        push_char(s, v[i]);
        assert(s@ =~= old(s)@ + v@.subrange(0, i + 1));
        i = i + 1;
    }
    assert(v@.subrange(0, v@.len() as int) =~= v@);
}

/// Appends the characters of `chars` to a string.
pub fn push_chars(s: &mut String, chars: &[char])
    ensures
        final(s)@ == old(s)@ + chars@,
{
    let mut i: usize = 0;
    while i < chars.len()
        invariant
            i <= chars@.len(),
            s@ == old(s)@ + chars@.subrange(0, i as int),
        decreases chars.len() - i,
    {
        push_char(s, chars[i]);
        assert(s@ =~= old(s)@ + chars@.subrange(0, i + 1));
        i = i + 1;
    }
    assert(chars@.subrange(0, chars@.len() as int) =~= chars@);
}

/// The decimal digits of `n`, most significant first.
pub open spec fn spec_decimal_digits(n: nat) -> Seq<char>
    decreases n,
{
    if n < 10 {
        seq![(('0' as u32) + n) as char]
    } else {
        spec_decimal_digits(n / 10).push((('0' as u32) + (n % 10)) as char)
    }
}

fn digit_char(d: u64) -> (c: char)
    requires
        d < 10,
    ensures
        c == (('0' as u32) + d) as char,
{
    let code = ('0' as u32) + (d as u32);
    char_from_code(code)
}

/// Appends the decimal rendering of `n`.
pub fn push_decimal(s: &mut String, n: u64)
    ensures
        final(s)@ == old(s)@ + spec_decimal_digits(n as nat),
    decreases n,
{
    if n < 10 {
        push_char(s, digit_char(n));
        assert(spec_decimal_digits(n as nat) =~= seq![(('0' as u32) + n) as char]);
    } else {
        push_decimal(s, n / 10);
        push_char(s, digit_char(n % 10));
        assert(final(s)@ =~= old(s)@ + spec_decimal_digits(n as nat));
    }
}

} // verus!
