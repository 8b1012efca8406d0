//! Quote-aware scanning: inline `//` comments, `"..."` tokens and their
//! escapes.

use vstd::prelude::*;
use crate::errors::{ParseError, ParseErrorKind, SourceLocation, spec_pos_ok};
use super::source::Source;

verus! {

/// Where the inline comment of `s[i..end]` starts (`end` if there is
/// none), scanning with the given quote state: a `//` outside `"..."`
/// starts a comment; inside a quote a backslash escapes the next
/// character.
pub open spec fn spec_comment_cut(s: Seq<char>, i: int, end: int, in_quote: bool) -> int
    decreases end - i,
{
    if i >= end {
        end
    } else if s[i] == '\\' && in_quote {
        if i + 1 >= end {
            end
        } else {
            spec_comment_cut(s, i + 2, end, in_quote)
        }
    } else if s[i] == '"' {
        spec_comment_cut(s, i + 1, end, !in_quote)
    } else if s[i] == '/' && !in_quote && i + 1 < end && s[i + 1] == '/' {
        i
    } else {
        spec_comment_cut(s, i + 1, end, in_quote)
    }
}

proof fn lemma_comment_cut_bounds(s: Seq<char>, i: int, end: int, in_quote: bool)
    requires
        i <= end,
    ensures
        i <= spec_comment_cut(s, i, end, in_quote) <= end,
    decreases end - i,
{
    if i >= end {
    } else if s[i] == '\\' && in_quote {
        if i + 1 < end {
            lemma_comment_cut_bounds(s, i + 2, end, in_quote);
        }
    } else if s[i] == '"' {
        lemma_comment_cut_bounds(s, i + 1, end, !in_quote);
    } else if s[i] == '/' && !in_quote && i + 1 < end && s[i + 1] == '/' {
    } else {
        lemma_comment_cut_bounds(s, i + 1, end, in_quote);
    }
}

/// Cuts `chars[start..end]` at its first `//` outside double quotes: the
/// line keeps `chars[start..r]`.
pub fn strip_inline_comment(chars: &[char], start: usize, end: usize) -> (r: usize)
    requires
        start <= end <= chars@.len(),
    ensures
        r as int == spec_comment_cut(chars@, start as int, end as int, false),
        start <= r <= end,
{
    proof {
        lemma_comment_cut_bounds(chars@, start as int, end as int, false);
    }
    let mut in_quote = false;
    let mut i = start;
    while i < end
        invariant
            start <= i <= end <= chars@.len(),
            spec_comment_cut(chars@, start as int, end as int, false) == spec_comment_cut(
                chars@,
                i as int,
                end as int,
                in_quote,
            ),
        decreases end - i,
    {
        let c = chars[i];
        if c == '\\' && in_quote {
            if i + 1 >= end {
                return end;
            }
            i = i + 2;
        } else if c == '"' {
            in_quote = !in_quote;
            i = i + 1;
        } else if c == '/' && !in_quote && i + 1 < end && chars[i + 1] == '/' {
            return i;
        } else {
            i = i + 1;
        }
    }
    end
}

/// Index of the first `"` of `s[i..end]` that no backslash escapes.
pub open spec fn spec_unescaped_quote(s: Seq<char>, i: int, end: int) -> Option<int>
    decreases end - i,
{
    if i >= end {
        None
    } else if s[i] == '\\' {
        if i + 1 >= end {
            None
        } else {
            spec_unescaped_quote(s, i + 2, end)
        }
    } else if s[i] == '"' {
        Some(i)
    } else {
        spec_unescaped_quote(s, i + 1, end)
    }
}

proof fn lemma_unescaped_quote_bounds(s: Seq<char>, i: int, end: int)
    ensures
        spec_unescaped_quote(s, i, end) matches Some(q) ==> i <= q < end && s[q] == '"',
    decreases end - i,
{
    if i >= end {
    } else if s[i] == '\\' {
        if i + 1 < end {
            lemma_unescaped_quote_bounds(s, i + 2, end);
        }
    } else if s[i] == '"' {
    } else {
        lemma_unescaped_quote_bounds(s, i + 1, end);
    }
}

/// Position of the first unescaped `"` in `chars[start..end]`.
pub fn find_unescaped_quote(chars: &[char], start: usize, end: usize) -> (r: Option<usize>)
    requires
        start <= end <= chars@.len(),
    ensures
        r matches Some(q) ==> start <= q < end && chars@[q as int] == '"',
        match r {
            Some(q) => spec_unescaped_quote(chars@, start as int, end as int) == Some(q as int),
            None => spec_unescaped_quote(chars@, start as int, end as int) is None,
        },
{
    proof {
        lemma_unescaped_quote_bounds(chars@, start as int, end as int);
    }
    let mut i = start;
    while i < end
        invariant
            start <= i <= end <= chars@.len(),
            spec_unescaped_quote(chars@, start as int, end as int) == spec_unescaped_quote(
                chars@,
                i as int,
                end as int,
            ),
        decreases end - i,
    {
        if chars[i] == '\\' {
            if i + 1 >= end {
                return None;
            }
            i = i + 2;
        } else if chars[i] == '"' {
            return Some(i);
        } else {
            i = i + 1;
        }
    }
    None
}

/// What `\c` stands for inside quotes: `\"`, `\\` and `\n` are escapes;
/// any other pair is kept as written.
pub open spec fn spec_escape_target(c: char) -> Seq<char> {
    if c == '"' {
        seq!['"']
    } else if c == 'n' {
        seq!['\n']
    } else if c == '\\' {
        seq!['\\']
    } else {
        seq!['\\', c]
    }
}

/// `s[i..]` with its escapes replaced; a lone trailing backslash is kept.
pub open spec fn spec_unescape_from(s: Seq<char>, i: int) -> Seq<char>
    decreases s.len() - i,
{
    if i >= s.len() {
        Seq::empty()
    } else if s[i] != '\\' {
        seq![s[i]] + spec_unescape_from(s, i + 1)
    } else if i + 1 >= s.len() {
        seq!['\\']
    } else {
        spec_escape_target(s[i + 1]) + spec_unescape_from(s, i + 2)
    }
}

pub open spec fn spec_unescape(s: Seq<char>) -> Seq<char> {
    spec_unescape_from(s, 0)
}

/// Replaces the escapes `\"`, `\\` and `\n` of `s`.
pub fn unescape(s: &[char]) -> (r: Vec<char>)
    ensures
        r@ == spec_unescape(s@),
{
    let mut out: Vec<char> = Vec::new();
    let mut i: usize = 0;
    while i < s.len()
        invariant
            i <= s@.len(),
            out@ + spec_unescape_from(s@, i as int) == spec_unescape(s@),
        decreases s.len() - i,
    {
        let ghost before = out@;
        if s[i] != '\\' {
            out.push(s[i]);
            assert(before + spec_unescape_from(s@, i as int) =~= out@ + spec_unescape_from(s@, i + 1));
            i = i + 1;
        } else if i + 1 >= s.len() {
            out.push('\\');
            assert(before + spec_unescape_from(s@, i as int) =~= out@ + spec_unescape_from(s@, i + 1));
            i = i + 1;
        } else {
            let c = s[i + 1];
            if c == '"' {
                out.push('"');
            } else if c == 'n' {
                out.push('\n');
            } else if c == '\\' {
                out.push('\\');
            } else {
                out.push('\\');
                out.push(c);
            }
            assert(out@ =~= before + spec_escape_target(c));
            assert(before + spec_unescape_from(s@, i as int) =~= out@ + spec_unescape_from(s@, i + 2));
            i = i + 2;
        }
    }
    assert(out@ + spec_unescape_from(s@, i as int) =~= out@);
    out
}

/// Text without a backslash is left unchanged by unescaping.
pub proof fn lemma_unescape_plain(s: Seq<char>)
    requires
        forall|k: int| 0 <= k < s.len() ==> s[k] != '\\',
    ensures
        spec_unescape(s) == s,
{
    lemma_unescape_plain_from(s, 0);
    assert(s.subrange(0, s.len() as int) =~= s);
}

proof fn lemma_unescape_plain_from(s: Seq<char>, i: int)
    requires
        0 <= i <= s.len(),
        forall|k: int| 0 <= k < s.len() ==> s[k] != '\\',
    ensures
        spec_unescape_from(s, i) == s.subrange(i, s.len() as int),
    decreases s.len() - i,
{
    if i < s.len() {
        lemma_unescape_plain_from(s, i + 1);
        assert(seq![s[i]] + s.subrange(i + 1, s.len() as int) =~= s.subrange(i, s.len() as int));
    } else {
        assert(s.subrange(i, s.len() as int) =~= Seq::<char>::empty());
    }
}

/// A `"..."` token read from the source: its unescaped text, the span of
/// the final line after the closing quote, and how many lines it took.
pub struct QuotedToken {
    pub text: Vec<char>,
    pub tail_start: usize,
    pub tail_end: usize,
    pub consumed_lines: usize,
}

/// The raw text of a quoted token whose unread part of line `idx` is
/// `s[a..b]`: up to the first unescaped `"` of a line, each earlier line
/// ended by a line feed. With it, the number of lines read, where the rest
/// of the last line starts, and where that line ends; `None` when the
/// lines run out first.
pub open spec fn spec_quoted_raw(s: Seq<char>, lines: Seq<(usize, usize)>, idx: int, a: int, b: int) -> Option<(Seq<char>, int, int, int)>
    decreases lines.len() - idx,
{
    match spec_unescaped_quote(s, a, b) {
        Some(q) => Some((s.subrange(a, q), 1, q + 1, b)),
        None => if 0 <= idx && idx + 1 < lines.len() {
            match spec_quoted_raw(s, lines, idx + 1, lines[idx + 1].0 as int, lines[idx + 1].1 as int) {
                Some((rest, c, t, e)) => Some((s.subrange(a, b).push('\n') + rest, c + 1, t, e)),
                None => None,
            }
        } else {
            None
        },
    }
}

/// Reads a quoted token whose payload starts at `chars[first_start..
/// first_end]` (the rest of line `index` after the opening quote). While no
/// unescaped `"` closes it, the token goes on over the following lines,
/// joined by line feeds. Fails with `UnclosedQuote` at `location` when the
/// input ends first.
pub fn collect_quoted(
    src: &Source,
    index: usize,
    first_start: usize,
    first_end: usize,
    location: SourceLocation,
) -> (r: Result<QuotedToken, ParseError>)
    requires
        src.wf(),
        index < src.lines@.len(),
        first_start <= first_end <= src.chars@.len(),
        spec_pos_ok(location),
    ensures
        r matches Err(e) ==> spec_pos_ok(e.location),
        match r {
            Ok(token) => {
                &&& token.consumed_lines >= 1
                &&& index + token.consumed_lines <= src.lines@.len()
                &&& token.tail_start <= token.tail_end <= src.chars@.len()
                &&& (spec_unescaped_quote(src.chars@, first_start as int, first_end as int) matches Some(q) ==> {
                    &&& token.consumed_lines == 1
                    &&& token.text@ == spec_unescape(src.chars@.subrange(first_start as int, q))
                    &&& token.tail_start == q + 1
                    &&& token.tail_end == first_end
                })
            },
            Err(e) => e.location == location && e.length == 1 && e.kind == ParseErrorKind::UnclosedQuote
                && spec_unescaped_quote(src.chars@, first_start as int, first_end as int) is None,
        },
        match spec_quoted_raw(src.chars@, src.lines@, index as int, first_start as int, first_end as int) {
            Some((raw, c, t, e)) => r matches Ok(token) && token.text@ == spec_unescape(raw)
                && token.consumed_lines == c && token.tail_start == t && token.tail_end == e,
            None => r is Err,
        },
{
    let mut content: Vec<char> = Vec::new();
    let mut cur_start = first_start;
    let mut cur_end = first_end;
    let mut idx = index;
    let n = src.lines.len();
    loop
        invariant
            src.wf(),
            spec_pos_ok(location),
            n == src.lines@.len(),
            index <= idx < n,
            idx > index ==> spec_unescaped_quote(src.chars@, first_start as int, first_end as int) is None,
            cur_start <= cur_end <= src.chars@.len(),
            idx == index ==> cur_start == first_start && cur_end == first_end && content@.len() == 0,
            match spec_quoted_raw(src.chars@, src.lines@, idx as int, cur_start as int, cur_end as int) {
                Some((rest, c, t, e)) => spec_quoted_raw(src.chars@, src.lines@, index as int, first_start as int, first_end as int)
                    == Some((content@ + rest, c + idx - index, t, e)),
                None => spec_quoted_raw(src.chars@, src.lines@, index as int, first_start as int, first_end as int) is None,
            },
        decreases src.lines@.len() - idx,
    {
        match find_unescaped_quote(&src.chars, cur_start, cur_end) {
            Some(q) => {
                let ghost before = content@;
                let mut k = cur_start;
                while k < q
                    invariant
                        cur_start <= k <= q <= src.chars@.len(),
                        content@ == before + src.chars@.subrange(cur_start as int, k as int),
                    decreases q - k,
                {
                    content.push(src.chars[k]);
                    assert(content@ =~= before + src.chars@.subrange(cur_start as int, k + 1));
                    k = k + 1;
                }
                if idx == index {
                    assert(content@ =~= src.chars@.subrange(first_start as int, q as int));
                }
                assert(content@ =~= before + src.chars@.subrange(cur_start as int, q as int));
                let text = unescape(&content);
                return Ok(QuotedToken { text, tail_start: q + 1, tail_end: cur_end, consumed_lines: idx - index + 1 });
            },
            None => {
                let ghost before = content@;
                let mut k = cur_start;
                while k < cur_end
                    invariant
                        cur_start <= k <= cur_end <= src.chars@.len(),
                        content@ == before + src.chars@.subrange(cur_start as int, k as int),
                    decreases cur_end - k,
                {
                    content.push(src.chars[k]);
                    assert(content@ =~= before + src.chars@.subrange(cur_start as int, k + 1));
                    k = k + 1;
                }
                content.push('\n');
                proof {
                    let line_text = src.chars@.subrange(cur_start as int, cur_end as int).push('\n');
                    assert(content@ =~= before + line_text);
                    if idx + 1 < n {
                        match spec_quoted_raw(src.chars@, src.lines@, idx + 1, src.lines@[idx + 1].0 as int, src.lines@[idx + 1].1 as int) {
                            Some((rest, c, t, e)) => {
                                assert(before + (line_text + rest) =~= content@ + rest);
                            },
                            None => {},
                        }
                    }
                }
                idx = idx + 1;
                if idx >= n {
                    return Err(ParseError::new(location, ParseErrorKind::UnclosedQuote));
                }
                let span = src.lines[idx];
                cur_start = span.0;
                cur_end = span.1;
            },
        }
    }
}

} // verus!
