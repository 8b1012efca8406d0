//! Chart styling: canvas, row defaults, layout parameters.

use vstd::prelude::*;
use crate::chars::{
    is_whitespace, lemma_skip_forward_bounds, spec_is_whitespace, spec_skip_ws_forward, span_eq_ignore_case,
    spec_eq_ignore_case, string_of,
};
use crate::color::Color;
use crate::defaults;
use crate::errors::{ParseErrorKind, TextError};
use crate::text::{FontFamily, FontSpec, UserText, spec_is_forbidden, spec_text_error};
use crate::units::{Px, Ratio, clamp_i128_to_i64, spec_clamp_i64};
use crate::line::{TransitionKind, WaveformElement};

verus! {

/// Horizontal text alignment used by labels and titles.
#[derive(Debug, Clone, Copy, PartialEq, Eq, Structural)]
pub enum HorizontalAlign {
    Left,
    Center,
    Right,
}

/// The alignment a keyword names: `left`, `center` or `right`, in any
/// case.
pub open spec fn spec_align_word(w: Seq<char>) -> Option<HorizontalAlign> {
    if spec_eq_ignore_case(w, seq!['c', 'e', 'n', 't', 'e', 'r']) {
        Some(HorizontalAlign::Center)
    } else if spec_eq_ignore_case(w, seq!['l', 'e', 'f', 't']) {
        Some(HorizontalAlign::Left)
    } else if spec_eq_ignore_case(w, seq!['r', 'i', 'g', 'h', 't']) {
        Some(HorizontalAlign::Right)
    } else {
        None
    }
}

impl HorizontalAlign {
    /// The SVG `text-anchor` value of the alignment.
    pub fn svg_text_anchor(self) -> (s: &'static str)
        ensures
            s@ == match self {
                HorizontalAlign::Left => seq!['s', 't', 'a', 'r', 't'],
                HorizontalAlign::Center => seq!['m', 'i', 'd', 'd', 'l', 'e'],
                HorizontalAlign::Right => seq!['e', 'n', 'd'],
            },
    {
        proof {
            reveal_strlit("start");
            reveal_strlit("middle");
            reveal_strlit("end");
        }
        match self {
            HorizontalAlign::Left => "start",
            HorizontalAlign::Center => "middle",
            HorizontalAlign::Right => "end",
        }
    }

    /// Reads `left` / `center` / `right` (case-insensitive).
    pub fn from_keyword(chars: &[char], start: usize, end: usize) -> (r: Option<HorizontalAlign>)
        requires
            start <= end <= chars@.len(),
        ensures
            r == spec_align_word(chars@.subrange(start as int, end as int)),
    {
        assert(['c', 'e', 'n', 't', 'e', 'r']@ =~= seq!['c', 'e', 'n', 't', 'e', 'r']);
        assert(['l', 'e', 'f', 't']@ =~= seq!['l', 'e', 'f', 't']);
        assert(['r', 'i', 'g', 'h', 't']@ =~= seq!['r', 'i', 'g', 'h', 't']);
        if span_eq_ignore_case(chars, start, end, &['c', 'e', 'n', 't', 'e', 'r']) {
            Some(HorizontalAlign::Center)
        } else if span_eq_ignore_case(chars, start, end, &['l', 'e', 'f', 't']) {
            Some(HorizontalAlign::Left)
        } else if span_eq_ignore_case(chars, start, end, &['r', 'i', 'g', 'h', 't']) {
            Some(HorizontalAlign::Right)
        } else {
            None
        }
    }
}

/// One `key=value` pair of an SVG attribute list.
#[derive(Debug, Clone, PartialEq, Eq)]
pub struct SvgAttr {
    pub key: String,
    pub value: UserText,
}

/// An ordered list of `key=value` SVG attributes (`@highlight_style`).
#[derive(Debug, Clone, PartialEq, Eq)]
pub struct SvgAttrList {
    pub pairs: Vec<SvgAttr>,
}

/// Whether a key character ends the key.
pub open spec fn spec_ends_key(c: char) -> bool {
    c == '=' || spec_is_whitespace(c)
}

/// First index at or after `i` of a character that ends a key, or the
/// end of `s`.
pub open spec fn spec_key_end(s: Seq<char>, i: int) -> int
    decreases s.len() - i,
{
    if i >= s.len() {
        s.len() as int
    } else if spec_ends_key(s[i]) {
        i
    } else {
        spec_key_end(s, i + 1)
    }
}

/// First index at or after `i` of a `"`, or the end of `s`.
pub open spec fn spec_quote_end(s: Seq<char>, i: int) -> int
    decreases s.len() - i,
{
    if i >= s.len() {
        s.len() as int
    } else if s[i] == '"' {
        i
    } else {
        spec_quote_end(s, i + 1)
    }
}

/// First index at or after `i` of a whitespace character, or the end of
/// `s`.
pub open spec fn spec_ws_end(s: Seq<char>, i: int) -> int
    decreases s.len() - i,
{
    if i >= s.len() {
        s.len() as int
    } else if spec_is_whitespace(s[i]) {
        i
    } else {
        spec_ws_end(s, i + 1)
    }
}

pub proof fn lemma_scan_bounds(s: Seq<char>, i: int)
    requires
        0 <= i <= s.len(),
    ensures
        i <= spec_key_end(s, i) <= s.len(),
        i <= spec_quote_end(s, i) <= s.len(),
        i <= spec_ws_end(s, i) <= s.len(),
    decreases s.len() - i,
{
    if i < s.len() {
        lemma_scan_bounds(s, i + 1);
    }
}

/// Why an SVG attribute list is rejected.
pub enum SvgFault {
    EmptyName,
    MissingEquals(Seq<char>),
    Unterminated,
    BadText(TextError),
}

/// The `key=value` pairs of `s[i..]`: pairs separated by whitespace,
/// whitespace allowed around `=`, a value either double-quoted (it may
/// then hold whitespace) or running to the next whitespace.
pub open spec fn spec_svg_pairs(s: Seq<char>, i: int) -> Result<Seq<(Seq<char>, Seq<char>)>, SvgFault>
    decreases s.len() - i,
{
    if i < 0 || i > s.len() {
        Ok(Seq::empty())
    } else {
        let a = spec_skip_ws_forward(s, i, s.len() as int);
        if a >= s.len() {
            Ok(Seq::empty())
        } else {
            let ke = spec_key_end(s, a);
            let e = spec_skip_ws_forward(s, ke, s.len() as int);
            let v = spec_skip_ws_forward(s, e + 1, s.len() as int);
            let quoted = v < s.len() && s[v] == '"';
            let vs = if quoted { v + 1 } else { v };
            let ve = if quoted { spec_quote_end(s, v + 1) } else { spec_ws_end(s, v) };
            let next = if quoted { ve + 1 } else { ve };
            if ke == a {
                Err(SvgFault::EmptyName)
            } else if e >= s.len() || s[e] != '=' {
                Err(SvgFault::MissingEquals(s.subrange(a, ke)))
            } else if quoted && ve >= s.len() {
                Err(SvgFault::Unterminated)
            } else {
                match spec_text_error(s.subrange(vs, ve)) {
                    Some(te) => Err(SvgFault::BadText(te)),
                    None => {
                        proof {
                            lemma_skip_forward_bounds(s, i, s.len() as int);
                            lemma_scan_bounds(s, a);
                            lemma_skip_forward_bounds(s, ke, s.len() as int);
                            lemma_skip_forward_bounds(s, e + 1, s.len() as int);
                            if v + 1 <= s.len() {
                                lemma_scan_bounds(s, v + 1);
                            }
                            lemma_scan_bounds(s, v);
                        }
                        match spec_svg_pairs(s, next) {
                            Ok(rest) => Ok(seq![(s.subrange(a, ke), s.subrange(vs, ve))] + rest),
                            Err(f) => Err(f),
                        }
                    },
                }
            }
        }
    }
}

/// The characters of each pair of a list.
pub open spec fn spec_pair_models(v: Seq<SvgAttr>) -> Seq<(Seq<char>, Seq<char>)> {
    v.map_values(|p: SvgAttr| (p.key@, p.value@))
}

/// The error kind a fault is reported as.
pub open spec fn spec_svg_fault_kind(f: SvgFault, kind: ParseErrorKind) -> bool {
    match f {
        SvgFault::EmptyName => kind == ParseErrorKind::HighlightStyleEmptyAttrName,
        SvgFault::MissingEquals(k) => kind matches ParseErrorKind::HighlightStyleMissingEquals(t) && t@ == k,
        SvgFault::Unterminated => kind == ParseErrorKind::HighlightStyleUnterminatedValue,
        SvgFault::BadText(te) => kind == ParseErrorKind::InvalidText(te),
    }
}

fn skip_ws(chars: &[char], i: usize) -> (j: usize)
    requires
        i <= chars@.len(),
    ensures
        i <= j <= chars@.len(),
        forall|k: int| i <= k < j ==> spec_is_whitespace(#[trigger] chars@[k]),
        j == chars@.len() || !spec_is_whitespace(chars@[j as int]),
        j == spec_skip_ws_forward(chars@, i as int, chars@.len() as int),
{
    let mut j = i;
    while j < chars.len() && is_whitespace(chars[j])
        invariant
            i <= j <= chars@.len(),
            forall|k: int| i <= k < j ==> spec_is_whitespace(#[trigger] chars@[k]),
            spec_skip_ws_forward(chars@, i as int, chars@.len() as int) == spec_skip_ws_forward(chars@, j as int, chars@.len() as int),
        decreases chars.len() - j,
    {
        j = j + 1;
    }
    j
}

impl SvgAttrList {
    pub fn new() -> (l: SvgAttrList)
        ensures
            l.pairs@.len() == 0,
    {
        SvgAttrList { pairs: Vec::new() }
    }

    /// Reads `key1="value 1" key2=value2 ...`: pairs separated by
    /// whitespace, optional whitespace around `=`, values optionally
    /// double-quoted (then they may hold whitespace).
    pub fn parse(chars: &[char]) -> (r: Result<SvgAttrList, ParseErrorKind>)
        ensures
            r matches Ok(list) ==> forall|p: int| 0 <= p < list.pairs@.len() ==> {
                let pair = #[trigger] list.pairs@[p];
                &&& pair.key@.len() > 0
                &&& forall|k: int| 0 <= k < pair.key@.len() ==> !spec_ends_key(#[trigger] pair.key@[k])
                &&& forall|k: int| 0 <= k < pair.value@.len() ==> !spec_is_forbidden(#[trigger] pair.value@[k])
            },
            r matches Err(kind) ==> (kind matches ParseErrorKind::HighlightStyleEmptyAttrName
                || kind matches ParseErrorKind::HighlightStyleMissingEquals(_)
                || kind matches ParseErrorKind::HighlightStyleUnterminatedValue
                || kind matches ParseErrorKind::InvalidText(_)),
            match spec_svg_pairs(chars@, 0) {
                Ok(ps) => r matches Ok(list) && spec_pair_models(list.pairs@) == ps,
                Err(f) => r matches Err(kind) && spec_svg_fault_kind(f, kind),
            },
    {
        let mut pairs: Vec<SvgAttr> = Vec::new();
        let mut i: usize = 0;
        assert(spec_pair_models(pairs@) =~= Seq::<(Seq<char>, Seq<char>)>::empty());
        loop
            invariant
                i <= chars@.len(),
                match spec_svg_pairs(chars@, i as int) {
                    Ok(rest) => spec_svg_pairs(chars@, 0) == Ok::<Seq<(Seq<char>, Seq<char>)>, SvgFault>(spec_pair_models(pairs@) + rest),
                    Err(f) => spec_svg_pairs(chars@, 0) == Err::<Seq<(Seq<char>, Seq<char>)>, SvgFault>(f),
                },
                forall|p: int| 0 <= p < pairs@.len() ==> {
                    let pair = #[trigger] pairs@[p];
                    &&& pair.key@.len() > 0
                    &&& forall|k: int| 0 <= k < pair.key@.len() ==> !spec_ends_key(#[trigger] pair.key@[k])
                    &&& forall|k: int| 0 <= k < pair.value@.len() ==> !spec_is_forbidden(#[trigger] pair.value@[k])
                },
            decreases chars.len() - i,
        {
            let ghost i0 = i as int;
            i = skip_ws(chars, i);
            if i == chars.len() {
                assert(spec_pair_models(pairs@) + Seq::<(Seq<char>, Seq<char>)>::empty() =~= spec_pair_models(pairs@));
                return Ok(SvgAttrList { pairs });
            }
            let key_start = i;
            while i < chars.len() && chars[i] != '=' && !is_whitespace(chars[i])
                invariant
                    key_start <= i <= chars@.len(),
                    forall|k: int| key_start <= k < i ==> !spec_ends_key(#[trigger] chars@[k]),
                    spec_key_end(chars@, key_start as int) == spec_key_end(chars@, i as int),
                decreases chars.len() - i,
            {
                i = i + 1;
            }
            if i == key_start {
                return Err(ParseErrorKind::HighlightStyleEmptyAttrName);
            }
            let key = string_of(chars, key_start, i);
            i = skip_ws(chars, i);
            if i >= chars.len() || chars[i] != '=' {
                return Err(ParseErrorKind::HighlightStyleMissingEquals(key));
            }
            i = skip_ws(chars, i + 1);
            let (value_start, value_end, next) = if i < chars.len() && chars[i] == '"' {
                let vs = i + 1;
                let mut j = vs;
                while j < chars.len() && chars[j] != '"'
                    invariant
                        vs <= j <= chars@.len(),
                        spec_quote_end(chars@, vs as int) == spec_quote_end(chars@, j as int),
                    decreases chars.len() - j,
                {
                    j = j + 1;
                }
                if j >= chars.len() {
                    return Err(ParseErrorKind::HighlightStyleUnterminatedValue);
                }
                (vs, j, j + 1)
            } else {
                let vs = i;
                let mut j = vs;
                while j < chars.len() && !is_whitespace(chars[j])
                    invariant
                        vs <= j <= chars@.len(),
                        spec_ws_end(chars@, vs as int) == spec_ws_end(chars@, j as int),
                    decreases chars.len() - j,
                {
                    j = j + 1;
                }
                (vs, j, j)
            };
            let value = match UserText::parse(chars, value_start, value_end) {
                Ok(t) => t,
                Err(e) => return Err(ParseErrorKind::InvalidText(e)),
            };
            assert forall|k: int| 0 <= k < key@.len() implies !spec_ends_key(#[trigger] key@[k]) by {
                assert(key@[k] == chars@[key_start + k]);
            }
            assert forall|k: int| 0 <= k < value@.len() implies !spec_is_forbidden(#[trigger] value@[k]) by {
                assert(value@[k] == chars@[value_start + k]);
            }
            let ghost before = pairs@;
            let ghost pair = (key@, value@);
            pairs.push(SvgAttr { key, value });
            assert(spec_pair_models(pairs@) =~= spec_pair_models(before).push(pair));
            proof {
                match spec_svg_pairs(chars@, next as int) {
                    Ok(rest) => {
                        assert(spec_pair_models(before) + (seq![pair] + rest) =~= spec_pair_models(pairs@) + rest);
                    },
                    Err(_) => {},
                }
            }
            i = next;
        }
    }

    /// A copy with the same pairs.
    pub fn duplicate(&self) -> (r: SvgAttrList)
        ensures
            spec_pair_models(r.pairs@) == spec_pair_models(self.pairs@),
    {
        let mut pairs: Vec<SvgAttr> = Vec::new();
        let mut i: usize = 0;
        while i < self.pairs.len()
            invariant
                i <= self.pairs@.len(),
                pairs@.len() == i,
                spec_pair_models(pairs@) == spec_pair_models(self.pairs@.subrange(0, i as int)),
            decreases self.pairs@.len() - i,
        {
            let p = &self.pairs[i];
            let ghost before = pairs@;
            let key = p.key.clone();
            let value = p.value.duplicate();
            pairs.push(SvgAttr { key, value });
            assert forall|k: int| 0 <= k < i + 1 implies #[trigger] spec_pair_models(pairs@)[k]
                == spec_pair_models(self.pairs@.subrange(0, i + 1))[k] by {
                if k < i {
                    assert(pairs@[k] == before[k]);
                    assert(spec_pair_models(before)[k] == spec_pair_models(self.pairs@.subrange(0, i as int))[k]);
                }
            }
            assert(spec_pair_models(pairs@) =~= spec_pair_models(self.pairs@.subrange(0, i + 1)));
            i = i + 1;
        }
        assert(self.pairs@.subrange(0, self.pairs@.len() as int) =~= self.pairs@);
        SvgAttrList { pairs }
    }

    /// The pairs, in order.
    pub fn as_slice(&self) -> (s: &[SvgAttr])
        ensures
            s@ == self.pairs@,
    {
        self.pairs.as_slice()
    }

    /// Whether `key` is one of the presentation attributes allowed in SVG
    /// output (`fill`, `fill-opacity`, `stroke`, `stroke-opacity`,
    /// `stroke-width`, `stroke-dasharray`, `opacity`; case-insensitive).
    pub fn is_safe_attr_name(key: &[char]) -> (b: bool)
        ensures
            b == spec_is_safe_attr_name(key@),
            b == (spec_eq_ignore_case(key@, seq!['f', 'i', 'l', 'l'])
                || spec_eq_ignore_case(key@, seq!['f', 'i', 'l', 'l', '-', 'o', 'p', 'a', 'c', 'i', 't', 'y'])
                || spec_eq_ignore_case(key@, seq!['s', 't', 'r', 'o', 'k', 'e'])
                || spec_eq_ignore_case(key@, seq!['s', 't', 'r', 'o', 'k', 'e', '-', 'o', 'p', 'a', 'c', 'i', 't', 'y'])
                || spec_eq_ignore_case(key@, seq!['s', 't', 'r', 'o', 'k', 'e', '-', 'w', 'i', 'd', 't', 'h'])
                || spec_eq_ignore_case(key@, seq!['s', 't', 'r', 'o', 'k', 'e', '-', 'd', 'a', 's', 'h', 'a', 'r', 'r', 'a', 'y'])
                || spec_eq_ignore_case(key@, seq!['o', 'p', 'a', 'c', 'i', 't', 'y'])),
    {
        let n = key.len();
        assert(key@.subrange(0, n as int) =~= key@);
        assert(['f', 'i', 'l', 'l']@ =~= seq!['f', 'i', 'l', 'l']);
        assert(['f', 'i', 'l', 'l', '-', 'o', 'p', 'a', 'c', 'i', 't', 'y']@ =~= seq!['f', 'i', 'l', 'l', '-', 'o', 'p', 'a', 'c', 'i', 't', 'y']);
        assert(['s', 't', 'r', 'o', 'k', 'e']@ =~= seq!['s', 't', 'r', 'o', 'k', 'e']);
        assert(['s', 't', 'r', 'o', 'k', 'e', '-', 'o', 'p', 'a', 'c', 'i', 't', 'y']@ =~= seq!['s', 't', 'r', 'o', 'k', 'e', '-', 'o', 'p', 'a', 'c', 'i', 't', 'y']);
        assert(['s', 't', 'r', 'o', 'k', 'e', '-', 'w', 'i', 'd', 't', 'h']@ =~= seq!['s', 't', 'r', 'o', 'k', 'e', '-', 'w', 'i', 'd', 't', 'h']);
        assert(['s', 't', 'r', 'o', 'k', 'e', '-', 'd', 'a', 's', 'h', 'a', 'r', 'r', 'a', 'y']@ =~= seq!['s', 't', 'r', 'o', 'k', 'e', '-', 'd', 'a', 's', 'h', 'a', 'r', 'r', 'a', 'y']);
        assert(['o', 'p', 'a', 'c', 'i', 't', 'y']@ =~= seq!['o', 'p', 'a', 'c', 'i', 't', 'y']);
        span_eq_ignore_case(key, 0, n, &['f', 'i', 'l', 'l'])
            || span_eq_ignore_case(key, 0, n, &['f', 'i', 'l', 'l', '-', 'o', 'p', 'a', 'c', 'i', 't', 'y'])
            || span_eq_ignore_case(key, 0, n, &['s', 't', 'r', 'o', 'k', 'e'])
            || span_eq_ignore_case(key, 0, n, &['s', 't', 'r', 'o', 'k', 'e', '-', 'o', 'p', 'a', 'c', 'i', 't', 'y'])
            || span_eq_ignore_case(key, 0, n, &['s', 't', 'r', 'o', 'k', 'e', '-', 'w', 'i', 'd', 't', 'h'])
            || span_eq_ignore_case(key, 0, n, &['s', 't', 'r', 'o', 'k', 'e', '-', 'd', 'a', 's', 'h', 'a', 'r', 'r', 'a', 'y'])
            || span_eq_ignore_case(key, 0, n, &['o', 'p', 'a', 'c', 'i', 't', 'y'])
    }

    /// The pairs whose key is an allowed presentation attribute, in order.
    pub fn safe_pairs(&self) -> (v: Vec<SvgAttr>)
        ensures
            spec_pair_models(v@) == spec_safe_models(spec_pair_models(self.pairs@)),
    {
        let mut v: Vec<SvgAttr> = Vec::new();
        let mut i: usize = 0;
        while i < self.pairs.len()
            invariant
                i <= self.pairs@.len(),
                spec_pair_models(v@) == spec_safe_models(spec_pair_models(self.pairs@.subrange(0, i as int))),
            decreases self.pairs@.len() - i,
        {
            let p = &self.pairs[i];
            let key = crate::chars::chars_of(p.key.as_str());
            let ghost before = v@;
            proof {
                let m = spec_pair_models(self.pairs@.subrange(0, i + 1));
                assert(m.drop_last() =~= spec_pair_models(self.pairs@.subrange(0, i as int)));
                assert(m.last() == (p.key@, p.value@));
            }
            if Self::is_safe_attr_name(&key) {
                v.push(SvgAttr { key: p.key.clone(), value: p.value.duplicate() });
                assert(spec_pair_models(v@) =~= spec_pair_models(before).push((p.key@, p.value@)));
            }
            i = i + 1;
        }
        assert(self.pairs@.subrange(0, self.pairs@.len() as int) =~= self.pairs@);
        v
    }
}

/// Whether `key` names one of the presentation attributes allowed in SVG
/// output (`fill`, `fill-opacity`, `stroke`, `stroke-opacity`,
/// `stroke-width`, `stroke-dasharray`, `opacity`), in any case.
pub open spec fn spec_is_safe_attr_name(key: Seq<char>) -> bool {
    ||| spec_eq_ignore_case(key, seq!['f', 'i', 'l', 'l'])
    ||| spec_eq_ignore_case(key, seq!['f', 'i', 'l', 'l', '-', 'o', 'p', 'a', 'c', 'i', 't', 'y'])
    ||| spec_eq_ignore_case(key, seq!['s', 't', 'r', 'o', 'k', 'e'])
    ||| spec_eq_ignore_case(key, seq!['s', 't', 'r', 'o', 'k', 'e', '-', 'o', 'p', 'a', 'c', 'i', 't', 'y'])
    ||| spec_eq_ignore_case(key, seq!['s', 't', 'r', 'o', 'k', 'e', '-', 'w', 'i', 'd', 't', 'h'])
    ||| spec_eq_ignore_case(key, seq!['s', 't', 'r', 'o', 'k', 'e', '-', 'd', 'a', 's', 'h', 'a', 'r', 'r', 'a', 'y'])
    ||| spec_eq_ignore_case(key, seq!['o', 'p', 'a', 'c', 'i', 't', 'y'])
}

/// The pairs of `v` whose key is an allowed presentation attribute.
pub open spec fn spec_safe_models(v: Seq<(Seq<char>, Seq<char>)>) -> Seq<(Seq<char>, Seq<char>)>
    decreases v.len(),
{
    if v.len() == 0 {
        v
    } else if spec_is_safe_attr_name(v.last().0) {
        spec_safe_models(v.drop_last()).push(v.last())
    } else {
        spec_safe_models(v.drop_last())
    }
}

/// Stroke style of guide lines (`|`).
#[derive(Debug, Clone, Copy, PartialEq, Eq, Structural)]
pub struct GuideStyle {
    pub color: Color,
    pub width: Px,
}

/// Stroke, guide, highlight and don't-care styles of a signal row.
#[derive(Debug, Clone, PartialEq, Eq)]
pub struct SignalStyle {
    pub color: Color,
    pub width: Px,
    pub guide: GuideStyle,
    pub highlight: SvgAttrList,
    pub dontcare_color: Color,
}

impl Default for SignalStyle {
    /// Black strokes, red guides, no highlight attributes.
    fn default() -> (s: SignalStyle)
        ensures
            s.is_default_style(),
    {
        SignalStyle::default_style()
    }
}

impl SignalStyle {
    /// Black 1px strokes, red 1px guides, no highlight attributes, grey
    /// don't-care hatching.
    pub open spec fn is_default_style(&self) -> bool {
        &&& self.color == Color::spec_black()
        &&& self.width.micros == 1_000_000
        &&& self.guide.color == Color::spec_red()
        &&& self.guide.width.micros == 1_000_000
        &&& self.highlight.pairs@.len() == 0
        &&& self.dontcare_color == (Color { r: 136, g: 136, b: 136, a: 255 })
    }

    pub fn default_style() -> (s: SignalStyle)
        ensures
            s.is_default_style(),
    {
        SignalStyle {
            color: Color::black(),
            width: defaults::signal_width(),
            guide: GuideStyle { color: Color::red(), width: defaults::guide_width() },
            highlight: SvgAttrList::new(),
            dontcare_color: defaults::dontcare_color(),
        }
    }

    pub fn color(&self) -> (c: Color)
        ensures
            c == self.color,
    {
        self.color
    }

    pub fn stroke_width(&self) -> (p: Px)
        ensures
            p == self.width,
    {
        self.width
    }

    pub fn highlight_attrs(&self) -> (l: &SvgAttrList)
        ensures
            *l == self.highlight,
    {
        &self.highlight
    }

    pub fn dontcare_color(&self) -> (c: Color)
        ensures
            c == self.dontcare_color,
    {
        self.dontcare_color
    }

    pub fn duplicate(&self) -> (r: SignalStyle)
        ensures
            r.color == self.color,
            r.width == self.width,
            r.guide == self.guide,
            r.dontcare_color == self.dontcare_color,
            spec_pair_models(r.highlight.pairs@) == spec_pair_models(self.highlight.pairs@),
    {
        SignalStyle {
            color: self.color,
            width: self.width,
            guide: self.guide,
            highlight: self.highlight.duplicate(),
            dontcare_color: self.dontcare_color,
        }
    }
}

/// Style of per-row signal names.
#[derive(Debug, Clone, PartialEq, Eq)]
pub struct LabelStyle {
    pub font: FontSpec,
    pub align: HorizontalAlign,
    pub color: Color,
    pub padding: Px,
    pub overline_gap: Px,
    pub overline_thickness: Px,
}

impl LabelStyle {
    /// Black, right-aligned names in the default font, 8px from the
    /// waveform; overlines 2px above the name and 1px thick.
    pub open spec fn is_default_style(&self) -> bool {
        &&& self.font.is_default_font()
        &&& self.align == HorizontalAlign::Right
        &&& self.color == Color::spec_black()
        &&& self.padding.micros == 8_000_000
        &&& self.overline_gap.micros == 2_000_000
        &&& self.overline_thickness.micros == 1_000_000
    }

    pub fn default_style() -> (s: LabelStyle)
        ensures
            s.is_default_style(),
    {
        LabelStyle {
            font: FontSpec::default_font(),
            align: HorizontalAlign::Right,
            color: Color::black(),
            padding: defaults::namepad(),
            overline_gap: defaults::overline_gap(),
            overline_thickness: defaults::overline_thickness(),
        }
    }

    pub fn color(&self) -> (c: Color)
        ensures
            c == self.color,
    {
        self.color
    }

    pub fn padding(&self) -> (p: Px)
        ensures
            p == self.padding,
    {
        self.padding
    }

    pub fn overline_gap(&self) -> (p: Px)
        ensures
            p == self.overline_gap,
    {
        self.overline_gap
    }

    pub fn overline_thickness(&self) -> (p: Px)
        ensures
            p == self.overline_thickness,
    {
        self.overline_thickness
    }

    pub fn duplicate(&self) -> (r: LabelStyle)
        ensures
            r.font.size == self.font.size,
            r.font.family@ == self.font.family@,
            r.align == self.align,
            r.color == self.color,
            r.padding == self.padding,
            r.overline_gap == self.overline_gap,
            r.overline_thickness == self.overline_thickness,
    {
        LabelStyle {
            font: self.font.duplicate(),
            align: self.align,
            color: self.color,
            padding: self.padding,
            overline_gap: self.overline_gap,
            overline_thickness: self.overline_thickness,
        }
    }
}

/// Style of a `@title` row.
#[derive(Debug, Clone, PartialEq, Eq)]
pub struct TitleStyle {
    pub font: FontSpec,
    pub align: HorizontalAlign,
    pub color: Color,
}

impl TitleStyle {
    pub fn new(font: FontSpec, align: HorizontalAlign, color: Color) -> (s: TitleStyle)
        ensures
            s.font == font,
            s.align == align,
            s.color == color,
    {
        TitleStyle { font, align, color }
    }

    pub fn align(&self) -> (a: HorizontalAlign)
        ensures
            a == self.align,
    {
        self.align
    }
}

/// Per-row snapshot of the signal and label styles.
#[derive(Debug, Clone, PartialEq, Eq)]
pub struct SignalRowStyle {
    pub signal: SignalStyle,
    pub label: LabelStyle,
}

impl SignalRowStyle {
    pub fn new(signal: SignalStyle, label: LabelStyle) -> (s: SignalRowStyle)
        ensures
            s.signal == signal,
            s.label == label,
    {
        SignalRowStyle { signal, label }
    }

    pub fn signal(&self) -> (s: &SignalStyle)
        ensures
            *s == self.signal,
    {
        &self.signal
    }

    pub fn label(&self) -> (l: &LabelStyle)
        ensures
            *l == self.label,
    {
        &self.label
    }
}

/// Canvas-wide style: font, line height, page margin and display scale.
#[derive(Debug, Clone, PartialEq, Eq)]
pub struct CanvasStyle {
    pub font: FontSpec,
    pub line_height: Px,
    pub page_margin: Px,
    pub scale: Ratio,
}

/// `size * ratio`, both in millionths, rounded toward zero to a millionth.
pub open spec fn spec_scaled(size: Px, ratio: Ratio) -> int {
    let product = size.micros * ratio.micros;
    crate::units::spec_clamp_i64(
        if product >= 0 { product / 1_000_000 } else { -((-product) / 1_000_000) },
    )
}

pub fn scaled(size: Px, ratio: Ratio) -> (p: Px)
    ensures
        p.micros as int == spec_scaled(size, ratio),
{
    let a = size.micros as i128;
    let b = ratio.micros as i128;
    assert(-0x4000_0000_0000_0000_0000_0000_0000_0000 <= a * b <= 0x4000_0000_0000_0000_0000_0000_0000_0000)
        by (nonlinear_arith)
        requires
            -0x8000_0000_0000_0000 <= a <= 0x7fff_ffff_ffff_ffff,
            -0x8000_0000_0000_0000 <= b <= 0x7fff_ffff_ffff_ffff,
    ;
    let product = a * b;
    let q = if product >= 0 { product / 1_000_000 } else { -((-product) / 1_000_000) };
    Px { micros: crate::units::clamp_i128_to_i64(q) }
}

impl CanvasStyle {
    /// The default font with lines 1.2 times its size, a 10px margin and
    /// no scaling.
    pub open spec fn is_default_style(&self) -> bool {
        &&& self.font.is_default_font()
        &&& self.line_height.micros == spec_scaled(defaults::default_font_size(), Ratio { micros: 1_200_000 })
        &&& self.page_margin.micros == 10_000_000
        &&& self.scale.micros == 1_000_000
    }

    pub fn default_style() -> (s: CanvasStyle)
        ensures
            s.is_default_style(),
    {
        let font = FontSpec::default_font();
        let line_height = scaled(font.size, defaults::lineheight_ratio());
        CanvasStyle { font, line_height, page_margin: defaults::page_margin(), scale: Ratio { micros: 1_000_000 } }
    }

    pub fn font(&self) -> (f: &FontSpec)
        ensures
            *f == self.font,
    {
        &self.font
    }

    pub fn line_height(&self) -> (p: Px)
        ensures
            p == self.line_height,
    {
        self.line_height
    }

    /// Sets the font size and recomputes the line height with the default
    /// ratio.
    pub fn set_font_size(&mut self, size: Px)
        ensures
            final(self).font.size == size,
            final(self).line_height.micros == spec_scaled(size, Ratio { micros: 1_200_000 }),
            final(self).page_margin == old(self).page_margin,
            final(self).scale == old(self).scale,
    {
        self.font.set_size(size);
        self.line_height = scaled(size, defaults::lineheight_ratio());
    }

    /// Sets the line height to `ratio` times the current font size.
    pub fn set_line_height_ratio(&mut self, ratio: Ratio)
        ensures
            final(self).line_height.micros == spec_scaled(old(self).font.size, ratio),
            final(self).font == old(self).font,
    {
        self.line_height = scaled(self.font.size, ratio);
    }
}

/// Alternating row-stripe colors.
#[derive(Debug, Clone, Copy, PartialEq, Eq, Structural)]
pub struct BackgroundStyle {
    pub bgcolor0: Color,
    pub bgcolor1: Color,
}

impl BackgroundStyle {
    /// Stripe color of the signal row with 0-based index `index`.
    pub fn stripe_for_index(&self, index: u32) -> (c: Color)
        ensures
            c == if index % 2 == 0 { self.bgcolor0 } else { self.bgcolor1 },
    {
        if index % 2 == 0 {
            self.bgcolor0
        } else {
            self.bgcolor1
        }
    }
}

/// Half of `step`, rounded down to a whole half pixel, and never below
/// zero: the slant a `@step` leaves when the slant was not set explicitly
/// and would not fit.
pub open spec fn spec_half_step(step: Px) -> Px {
    Px { micros: if step.micros >= 0 { ((step.micros / 1_000_000) * 500_000) as i64 } else { 0 } }
}

/// Layout-time parameters: per-unit step, transition slant, row gap and
/// optional explicit name-column width.
#[derive(Debug, Clone, Copy, PartialEq, Eq, Structural)]
pub struct LayoutParams {
    pub step: Px,
    pub slant: Px,
    /// Whether `slant` was set by `@slant` (then `@step` no longer clamps it).
    pub slant_explicit: bool,
    pub h_space: Px,
    pub capwidth: Option<Px>,
}

impl LayoutParams {
    /// The width, in millionths of a pixel (saturating), that a waveform
    /// element takes: a level run its units in steps, less a slant when a
    /// transition draws its start; a transition a slant; a gap a step;
    /// everything else nothing.
    pub open spec fn spec_element_width(&self, e: WaveformElement) -> int {
        match e {
            WaveformElement::Level(run) => spec_clamp_i64(
                spec_clamp_i64(self.step.micros * run.units) - if run.preceded_by_transition { self.slant.micros as int } else { 0 },
            ),
            WaveformElement::Transition(_) => self.slant.micros as int,
            WaveformElement::Gap => self.step.micros as int,
            _ => 0,
        }
    }

    /// The widths of `v` added in order (saturating at each step).
    pub open spec fn spec_widths_sum(&self, v: Seq<WaveformElement>) -> int
        decreases v.len(),
    {
        if v.len() == 0 {
            0
        } else {
            spec_clamp_i64(self.spec_widths_sum(v.drop_last()) + self.spec_element_width(v.last()))
        }
    }

    /// Width of a transition of any kind: the slant.
    pub fn transition_width(&self, kind: TransitionKind) -> (p: Px)
        ensures
            p == self.slant,
    {
        match kind {
            TransitionKind::SingleEdge | TransitionKind::BusOpen | TransitionKind::BusClose | TransitionKind::BusCross => self.slant,
        }
    }

    /// Width of one waveform element.
    pub fn element_width(&self, element: &WaveformElement) -> (p: Px)
        ensures
            p.micros == self.spec_element_width(*element),
    {
        match element {
            WaveformElement::Level(run) => {
                let full = self.step.mul_int(run.units);
                let slant: i128 = if run.preceded_by_transition { self.slant.micros as i128 } else { 0 };
                Px { micros: clamp_i128_to_i64(full.micros as i128 - slant) }
            },
            WaveformElement::Transition(t) => self.transition_width(t.kind),
            WaveformElement::Gap => self.step,
            _ => Px { micros: 0 },
        }
    }

    /// Sum of the widths of `elements`.
    pub fn sum_element_widths(&self, elements: &[WaveformElement]) -> (p: Px)
        ensures
            p.micros == self.spec_widths_sum(elements@),
    {
        let mut total: i64 = 0;
        let mut i: usize = 0;
        while i < elements.len()
            invariant
                i <= elements@.len(),
                total == self.spec_widths_sum(elements@.subrange(0, i as int)),
            decreases elements@.len() - i,
        {
            assert(elements@.subrange(0, i + 1).drop_last() =~= elements@.subrange(0, i as int));
            let w = self.element_width(&elements[i]);
            total = clamp_i128_to_i64(total as i128 + w.micros as i128);
            i = i + 1;
        }
        assert(elements@.subrange(0, elements@.len() as int) =~= elements@);
        Px { micros: total }
    }

    /// 25px steps, 5px slants (not set explicitly), 8px between rows and
    /// automatic cap widths.
    pub open spec fn is_default_params(&self) -> bool {
        &&& self.step == defaults::default_step()
        &&& self.slant == defaults::default_slant()
        &&& !self.slant_explicit
        &&& self.h_space.micros == 8_000_000
        &&& self.capwidth is None
    }

    pub fn default_params() -> (p: LayoutParams)
        ensures
            p.is_default_params(),
    {
        LayoutParams {
            step: defaults::step(),
            slant: defaults::slant(),
            slant_explicit: false,
            h_space: defaults::h_space(),
            capwidth: None,
        }
    }

    pub fn step(&self) -> (p: Px)
        ensures
            p == self.step,
    {
        self.step
    }

    pub fn slant(&self) -> (p: Px)
        ensures
            p == self.slant,
    {
        self.slant
    }

    pub fn h_space(&self) -> (p: Px)
        ensures
            p == self.h_space,
    {
        self.h_space
    }

    pub fn capwidth(&self) -> (p: Option<Px>)
        ensures
            p == self.capwidth,
    {
        self.capwidth
    }

    /// Sets the step. When the slant is still the implicit default and is
    /// not below the new step, it is shrunk to half the step, rounded down to
    /// a whole half pixel (never below zero).
    pub fn set_step(&mut self, step: Px)
        ensures
            final(self).step == step,
            final(self).slant_explicit == old(self).slant_explicit,
            final(self).h_space == old(self).h_space,
            final(self).capwidth == old(self).capwidth,
            final(self).slant == if !old(self).slant_explicit && old(self).slant.micros >= step.micros {
                spec_half_step(step)
            } else {
                old(self).slant
            },
    {
        self.step = step;
        if !self.slant_explicit && self.slant.micros >= step.micros {
            let half = if step.micros >= 0 { (step.micros / 1_000_000) * 500_000 } else { 0 };
            self.slant = Px { micros: half };
        }
    }

    /// Sets the slant and marks it explicit.
    pub fn set_slant(&mut self, slant: Px)
        ensures
            final(self).slant == slant,
            final(self).slant_explicit,
            final(self).step == old(self).step,
            final(self).h_space == old(self).h_space,
            final(self).capwidth == old(self).capwidth,
    {
        self.slant = slant;
        self.slant_explicit = true;
    }
}

/// The complete chart style.
#[derive(Debug, Clone, PartialEq, Eq)]
pub struct ChartStyle {
    pub canvas: CanvasStyle,
    pub background: BackgroundStyle,
    pub signal: SignalStyle,
    pub label: LabelStyle,
    pub layout: LayoutParams,
}

impl Default for ChartStyle {
    /// The style in force before any directive.
    fn default() -> (s: ChartStyle)
        ensures
            s.is_default_style(),
    {
        ChartStyle::default_style()
    }
}

impl ChartStyle {
    /// The style in force before any directive: every part at its
    /// default, with no stripe colours.
    pub open spec fn is_default_style(&self) -> bool {
        &&& self.canvas.is_default_style()
        &&& self.background.bgcolor0 == (Color { r: 0, g: 0, b: 0, a: 0 })
        &&& self.background.bgcolor1 == (Color { r: 0, g: 0, b: 0, a: 0 })
        &&& self.signal.is_default_style()
        &&& self.label.is_default_style()
        &&& self.layout.is_default_params()
    }

    pub fn default_style() -> (s: ChartStyle)
        ensures
            s.is_default_style(),
    {
        ChartStyle {
            canvas: CanvasStyle::default_style(),
            background: BackgroundStyle { bgcolor0: Color::none(), bgcolor1: Color::none() },
            signal: SignalStyle::default_style(),
            label: LabelStyle::default_style(),
            layout: LayoutParams::default_params(),
        }
    }

    pub fn canvas(&self) -> (c: &CanvasStyle)
        ensures
            *c == self.canvas,
    {
        &self.canvas
    }

    pub fn layout(&self) -> (l: &LayoutParams)
        ensures
            *l == self.layout,
    {
        &self.layout
    }

    pub fn default_signal_style(&self) -> (s: &SignalStyle)
        ensures
            *s == self.signal,
    {
        &self.signal
    }

    pub fn default_label_style(&self) -> (s: &LabelStyle)
        ensures
            *s == self.label,
    {
        &self.label
    }

    /// Sets the canvas font size; the line height follows with the default
    /// ratio.
    pub fn set_font_size(&mut self, size: Px)
        ensures
            final(self).canvas.font.size == size,
            final(self).canvas.line_height.micros == spec_scaled(size, Ratio { micros: 1_200_000 }),
            final(self).canvas.font.family == old(self).canvas.font.family,
            final(self).canvas.page_margin == old(self).canvas.page_margin,
            final(self).canvas.scale == old(self).canvas.scale,
            final(self).background == old(self).background,
            final(self).signal == old(self).signal,
            final(self).label == old(self).label,
            final(self).layout == old(self).layout,
    {
        self.canvas.font.set_size(size);
        self.canvas.line_height = scaled(size, defaults::lineheight_ratio());
    }

    /// Sets the line height to `ratio` times the canvas font size.
    pub fn set_line_height_ratio(&mut self, ratio: Ratio)
        ensures
            final(self).canvas.line_height.micros == spec_scaled(old(self).canvas.font.size, ratio),
            final(self).canvas.font == old(self).canvas.font,
            final(self).canvas.page_margin == old(self).canvas.page_margin,
            final(self).canvas.scale == old(self).canvas.scale,
            final(self).background == old(self).background,
            final(self).signal == old(self).signal,
            final(self).label == old(self).label,
            final(self).layout == old(self).layout,
    {
        self.canvas.line_height = scaled(self.canvas.font.size, ratio);
    }

    pub fn set_page_margin(&mut self, margin: Px)
        ensures
            final(self).canvas.page_margin == margin,
            final(self).canvas.font == old(self).canvas.font,
            final(self).canvas.line_height == old(self).canvas.line_height,
            final(self).canvas.scale == old(self).canvas.scale,
            final(self).background == old(self).background,
            final(self).signal == old(self).signal,
            final(self).label == old(self).label,
            final(self).layout == old(self).layout,
    {
        self.canvas.page_margin = margin;
    }

    /// Sets the display scale of the SVG root.
    pub fn set_scale(&mut self, scale: Ratio)
        ensures
            final(self).canvas.scale == scale,
            final(self).canvas.font == old(self).canvas.font,
            final(self).canvas.line_height == old(self).canvas.line_height,
            final(self).canvas.page_margin == old(self).canvas.page_margin,
            final(self).background == old(self).background,
            final(self).signal == old(self).signal,
            final(self).label == old(self).label,
            final(self).layout == old(self).layout,
    {
        self.canvas.scale = scale;
    }

    pub fn set_signal_width(&mut self, width: Px)
        ensures
            final(self).signal.width == width,
            final(self).signal.color == old(self).signal.color,
            final(self).signal.guide == old(self).signal.guide,
            final(self).signal.highlight == old(self).signal.highlight,
            final(self).signal.dontcare_color == old(self).signal.dontcare_color,
            final(self).canvas == old(self).canvas,
            final(self).background == old(self).background,
            final(self).label == old(self).label,
            final(self).layout == old(self).layout,
    {
        self.signal.width = width;
    }

    pub fn set_guide_color(&mut self, color: Color)
        ensures
            final(self).signal.guide.color == color,
            final(self).signal.guide.width == old(self).signal.guide.width,
            final(self).signal.color == old(self).signal.color,
            final(self).signal.width == old(self).signal.width,
            final(self).signal.highlight == old(self).signal.highlight,
            final(self).signal.dontcare_color == old(self).signal.dontcare_color,
            final(self).canvas == old(self).canvas,
            final(self).background == old(self).background,
            final(self).label == old(self).label,
            final(self).layout == old(self).layout,
    {
        self.signal.guide.color = color;
    }

    pub fn set_guide_width(&mut self, width: Px)
        ensures
            final(self).signal.guide.width == width,
            final(self).signal.guide.color == old(self).signal.guide.color,
            final(self).signal.color == old(self).signal.color,
            final(self).signal.width == old(self).signal.width,
            final(self).signal.highlight == old(self).signal.highlight,
            final(self).signal.dontcare_color == old(self).signal.dontcare_color,
            final(self).canvas == old(self).canvas,
            final(self).background == old(self).background,
            final(self).label == old(self).label,
            final(self).layout == old(self).layout,
    {
        self.signal.guide.width = width;
    }

    /// Sets the stripe color of even signal rows.
    pub fn set_bgcolor0(&mut self, color: Color)
        ensures
            final(self).background.bgcolor0 == color,
            final(self).background.bgcolor1 == old(self).background.bgcolor1,
            final(self).canvas == old(self).canvas,
            final(self).signal == old(self).signal,
            final(self).label == old(self).label,
            final(self).layout == old(self).layout,
    {
        self.background.bgcolor0 = color;
    }

    /// Sets the stripe color of odd signal rows.
    pub fn set_bgcolor1(&mut self, color: Color)
        ensures
            final(self).background.bgcolor1 == color,
            final(self).background.bgcolor0 == old(self).background.bgcolor0,
            final(self).canvas == old(self).canvas,
            final(self).signal == old(self).signal,
            final(self).label == old(self).label,
            final(self).layout == old(self).layout,
    {
        self.background.bgcolor1 = color;
    }

    /// Replaces the attributes of highlighted (`[...]`) regions.
    pub fn set_highlight_attrs(&mut self, attrs: SvgAttrList)
        ensures
            final(self).signal.highlight == attrs,
            final(self).signal.color == old(self).signal.color,
            final(self).signal.width == old(self).signal.width,
            final(self).signal.guide == old(self).signal.guide,
            final(self).signal.dontcare_color == old(self).signal.dontcare_color,
            final(self).canvas == old(self).canvas,
            final(self).background == old(self).background,
            final(self).label == old(self).label,
            final(self).layout == old(self).layout,
    {
        self.signal.highlight = attrs;
    }

    pub fn set_dontcare_color(&mut self, color: Color)
        ensures
            final(self).signal.dontcare_color == color,
            final(self).signal.color == old(self).signal.color,
            final(self).signal.width == old(self).signal.width,
            final(self).signal.guide == old(self).signal.guide,
            final(self).signal.highlight == old(self).signal.highlight,
            final(self).canvas == old(self).canvas,
            final(self).background == old(self).background,
            final(self).label == old(self).label,
            final(self).layout == old(self).layout,
    {
        self.signal.dontcare_color = color;
    }

    /// Sets the padding between signal names and waveforms.
    pub fn set_name_padding(&mut self, padding: Px)
        ensures
            final(self).label.padding == padding,
            final(self).label.font == old(self).label.font,
            final(self).label.align == old(self).label.align,
            final(self).label.color == old(self).label.color,
            final(self).label.overline_gap == old(self).label.overline_gap,
            final(self).label.overline_thickness == old(self).label.overline_thickness,
            final(self).canvas == old(self).canvas,
            final(self).background == old(self).background,
            final(self).signal == old(self).signal,
            final(self).layout == old(self).layout,
    {
        self.label.padding = padding;
    }

    pub fn set_overline_gap(&mut self, gap: Px)
        ensures
            final(self).label.overline_gap == gap,
            final(self).label.font == old(self).label.font,
            final(self).label.align == old(self).label.align,
            final(self).label.color == old(self).label.color,
            final(self).label.padding == old(self).label.padding,
            final(self).label.overline_thickness == old(self).label.overline_thickness,
            final(self).canvas == old(self).canvas,
            final(self).background == old(self).background,
            final(self).signal == old(self).signal,
            final(self).layout == old(self).layout,
    {
        self.label.overline_gap = gap;
    }

    pub fn set_overline_thickness(&mut self, thickness: Px)
        ensures
            final(self).label.overline_thickness == thickness,
            final(self).label.font == old(self).label.font,
            final(self).label.align == old(self).label.align,
            final(self).label.color == old(self).label.color,
            final(self).label.padding == old(self).label.padding,
            final(self).label.overline_gap == old(self).label.overline_gap,
            final(self).canvas == old(self).canvas,
            final(self).background == old(self).background,
            final(self).signal == old(self).signal,
            final(self).layout == old(self).layout,
    {
        self.label.overline_thickness = thickness;
    }

    /// Sets (or, with `None`, clears) the explicit width of the name column.
    pub fn set_capwidth(&mut self, width: Option<Px>)
        ensures
            final(self).layout.capwidth == width,
            final(self).layout.step == old(self).layout.step,
            final(self).layout.slant == old(self).layout.slant,
            final(self).layout.slant_explicit == old(self).layout.slant_explicit,
            final(self).layout.h_space == old(self).layout.h_space,
            final(self).canvas == old(self).canvas,
            final(self).background == old(self).background,
            final(self).signal == old(self).signal,
            final(self).label == old(self).label,
    {
        self.layout.capwidth = width;
    }

    /// Sets the step; see [`LayoutParams::set_step`] for the slant clamp.
    pub fn set_step(&mut self, step: Px)
        ensures
            final(self).layout.step == step,
            final(self).layout.slant_explicit == old(self).layout.slant_explicit,
            final(self).layout.h_space == old(self).layout.h_space,
            final(self).layout.capwidth == old(self).layout.capwidth,
            final(self).layout.slant == if !old(self).layout.slant_explicit && old(self).layout.slant.micros >= step.micros {
                spec_half_step(step)
            } else {
                old(self).layout.slant
            },
            final(self).canvas == old(self).canvas,
            final(self).background == old(self).background,
            final(self).signal == old(self).signal,
            final(self).label == old(self).label,
    {
        self.layout.set_step(step);
    }

    /// Sets the slant and marks it explicit.
    pub fn set_slant(&mut self, slant: Px)
        ensures
            final(self).layout.slant == slant,
            final(self).layout.slant_explicit,
            final(self).layout.step == old(self).layout.step,
            final(self).layout.h_space == old(self).layout.h_space,
            final(self).layout.capwidth == old(self).layout.capwidth,
            final(self).canvas == old(self).canvas,
            final(self).background == old(self).background,
            final(self).signal == old(self).signal,
            final(self).label == old(self).label,
    {
        self.layout.set_slant(slant);
    }

    /// Sets the vertical gap between rows.
    pub fn set_h_space(&mut self, h_space: Px)
        ensures
            final(self).layout.h_space == h_space,
            final(self).layout.step == old(self).layout.step,
            final(self).layout.slant == old(self).layout.slant,
            final(self).layout.slant_explicit == old(self).layout.slant_explicit,
            final(self).layout.capwidth == old(self).layout.capwidth,
            final(self).canvas == old(self).canvas,
            final(self).background == old(self).background,
            final(self).signal == old(self).signal,
            final(self).label == old(self).label,
    {
        self.layout.h_space = h_space;
    }

    /// Sets the font family of the canvas and of signal names.
    pub fn set_font_family(&mut self, family: FontFamily)
        ensures
            final(self).canvas.font.family@ == family@,
            final(self).label.font.family@ == family@,
            final(self).canvas.font.size == old(self).canvas.font.size,
            final(self).canvas.line_height == old(self).canvas.line_height,
            final(self).canvas.page_margin == old(self).canvas.page_margin,
            final(self).canvas.scale == old(self).canvas.scale,
            final(self).label.font.size == old(self).label.font.size,
            final(self).label.align == old(self).label.align,
            final(self).label.color == old(self).label.color,
            final(self).label.padding == old(self).label.padding,
            final(self).label.overline_gap == old(self).label.overline_gap,
            final(self).label.overline_thickness == old(self).label.overline_thickness,
            final(self).background == old(self).background,
            final(self).signal == old(self).signal,
            final(self).layout == old(self).layout,
    {
        self.canvas.font.set_family(family.duplicate());
        self.label.font.set_family(family);
    }

    /// Sets the signal stroke color; signal names take the same color.
    pub fn set_signal_color(&mut self, color: Color)
        ensures
            final(self).signal.color == color,
            final(self).label.color == color,
            final(self).signal.width == old(self).signal.width,
            final(self).signal.guide == old(self).signal.guide,
            final(self).signal.highlight == old(self).signal.highlight,
            final(self).signal.dontcare_color == old(self).signal.dontcare_color,
            final(self).label.font == old(self).label.font,
            final(self).label.align == old(self).label.align,
            final(self).label.padding == old(self).label.padding,
            final(self).label.overline_gap == old(self).label.overline_gap,
            final(self).label.overline_thickness == old(self).label.overline_thickness,
            final(self).canvas == old(self).canvas,
            final(self).background == old(self).background,
            final(self).layout == old(self).layout,
    {
        self.signal.color = color;
        self.label.color = color;
    }

    /// The stripe color of the signal row with 0-based index `index`.
    pub fn stripe_for_signal_index(&self, index: u32) -> (c: Color)
        ensures
            c == if index % 2 == 0 { self.background.bgcolor0 } else { self.background.bgcolor1 },
    {
        self.background.stripe_for_index(index)
    }
}

} // verus!
